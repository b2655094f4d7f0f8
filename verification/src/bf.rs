use crate::cpu::CpuConfig;
use crate::semantics::{
    add_current_to, cfg_ok_for, first_nonzero_from, grow, machine_wf, op_view, ops_view, read_in, run_loop, run_one,
    run_seq, tracks_of, uses_check, uses_check_op, wadd, Machine, Op, RunErr, text_of, lemma_text_of_push, lemma_ops_view_push,
    plain_seq, plain_op, lemma_plain_push, op_text,
    sa_add, sa_lookup, sa_fold, sa_step, SaFold, lemma_sa_fold_stuck, lemma_sa_add_found, lemma_sa_add_absent, unit_moves,
    lemma_unit_moves_push, OptBuf, opt_fold, opt_step, optimize, loop_opt, flush_add, flush_all, flush_shift,
};
use num_format::{Locale, ToFormattedString};
use vstd::prelude::*;

verus! {

broadcast use crate::semantics::lemma_ops_view, vstd::std_specs::vec::axiom_vec_index_decreases, vstd::std_specs::vec::axiom_spec_len;

/// A Brainfuck operation, including the optimized forms produced by
/// `get_optimized_bf_ops` and a few debugging pseudo-operations.
#[derive(Debug)]
pub enum BfOp {
    Left,
    Right,
    Inc,
    Dec,
    In,
    Out,
    Loop(Vec<BfOp>),
    Clr,
    Shift(i16),
    Add(u8),
    MoveAdd(i16),
    MoveAdd2(i16, i16),
    Comment(String),
    DebugMessage(String),
    Crash(String),
    Breakpoint,
    PrintRegisters,
    CheckScratchIsEmptyFromHere(String),
}

/// Input and output of a running Brainfuck program: the input bytes still to be
/// read (from `input_pos` on), the bytes written, and the messages of
/// `DebugMessage` and `Crash` operations in the order they were met.
pub struct BfIo {
    pub input: Vec<u8>,
    pub input_pos: usize,
    pub output: Vec<u8>,
    pub messages: Vec<String>,
}

impl BfIo {
    pub fn new(input: Vec<u8>) -> (r: BfIo)
        ensures
            r.input@ == input@,
            r.input_pos == 0,
            r.output@ == Seq::<u8>::empty(),
            r.messages@.len() == 0,
    {
        BfIo { input, input_pos: 0, output: Vec::new(), messages: Vec::new() }
    }
}

#[derive(Debug)]
pub enum RunOpError {
    PtrOutOfBounds,
    Crashed,
    Other(String),
    OutOfFuel,
}

pub fn wrapping_add_u8(a: u8, b: u8) -> (r: u8)
    ensures r == wadd(a, b),
{
    ((a as u16 + b as u16) % 256) as u8
}

pub open spec fn err_view(e: RunOpError) -> RunErr {
    match e {
        RunOpError::PtrOutOfBounds => RunErr::PtrOutOfBounds,
        RunOpError::Crashed => RunErr::Crashed,
        RunOpError::Other(_) => RunErr::ScratchNotEmpty,
        RunOpError::OutOfFuel => RunErr::OutOfFuel,
    }
}

pub struct BfState {
    pub cells: Vec<u8>,
    pub cell_ptr: usize,
}

pub open spec fn messages_view(ms: Seq<String>) -> Seq<Seq<char>> {
    ms.map_values(|s: String| s@)
}

pub open spec fn machine_of(st: BfState, io: BfIo) -> Machine {
    Machine {
        cells: st.cells@,
        ptr: st.cell_ptr as int,
        input: io.input@,
        in_pos: io.input_pos as int,
        output: io.output@,
        messages: messages_view(io.messages@),
    }
}

/// The exec result matches a modelled outcome.
pub open spec fn outcome_matches(r: Result<(), RunOpError>, st: BfState, io: BfIo, out: (Machine, Option<RunErr>)) -> bool {
    &&& machine_of(st, io) == out.0
    &&& match out.1 {
        None => r is Ok,
        Some(e) => r is Err && err_view(r->Err_0) == e,
    }
}

/// The message of a failed scratch check.
fn scratch_error_message(index: usize, value: u8, msg: &String) -> (r: String)
    ensures
        r@ == "CheckScratchIsEmptyFromHere: Not empty at index "@ + decimal_text(index as nat) + ", value "@
            + decimal_text(value as nat) + ". Message: "@ + msg@,
{
    let mut r = String::new();
    push_str(&mut r, "CheckScratchIsEmptyFromHere: Not empty at index ");
    push_decimal_text(&mut r, index as u64);
    push_str(&mut r, ", value ");
    push_decimal_text(&mut r, value as u64);
    push_str(&mut r, ". Message: ");
    push_str(&mut r, msg.as_str());
    r
}

impl BfState {
    pub fn new() -> (r: BfState)
        ensures
            r.cells@ == seq![0u8],
            r.cell_ptr == 0,
    {
        BfState { cells: vec![0u8], cell_ptr: 0 }
    }

    fn grow_to(&mut self, n: usize)
        requires n < usize::MAX,
        ensures
            final(self).cells@ == grow(old(self).cells@, n as int),
            final(self).cell_ptr == old(self).cell_ptr,
    {
        if self.cells.len() <= n {
            let ghost old_cells = self.cells@;
            self.cells.resize(n + 1, 0u8);
            assert(self.cells@ =~= grow(old_cells, n as int));
        }
    }

    /// The index `shift` cells away from the pointer, growing the tape as needed.
    fn get_valid_ptr(&mut self, shift: i16) -> (r: Result<usize, RunOpError>)
        requires (old(self).cell_ptr as int) < old(self).cells@.len(),
        ensures
            match r {
                Ok(n) => {
                    &&& n == old(self).cell_ptr + shift
                    &&& 0 <= old(self).cell_ptr + shift < usize::MAX
                    &&& final(self).cells@ == grow(old(self).cells@, n as int)
                },
                Err(e) => {
                    &&& e == RunOpError::PtrOutOfBounds
                    &&& !(0 <= old(self).cell_ptr + shift < usize::MAX)
                    &&& final(self).cells@ == old(self).cells@
                },
            },
            final(self).cell_ptr == old(self).cell_ptr,
    {
        if shift < 0 {
            let d = (0i32 - shift as i32) as usize;
            if self.cell_ptr < d {
                return Err(RunOpError::PtrOutOfBounds);
            }
            Ok(self.cell_ptr - d)
        } else {
            let d = shift as usize;
            if self.cell_ptr >= usize::MAX - d {
                return Err(RunOpError::PtrOutOfBounds);
            }
            let n = self.cell_ptr + d;
            self.grow_to(n);
            Ok(n)
        }
    }

    /// Adds the current cell onto the cell `shift` away (the pointer does not move).
    fn add_current_to(&mut self, io: &BfIo, shift: i16) -> (r: Result<(), RunOpError>)
        requires (old(self).cell_ptr as int) < old(self).cells@.len(),
        ensures
            match add_current_to(machine_of(*old(self), *io), shift as int) {
                Some(m) => r is Ok && machine_of(*final(self), *io) == m,
                None => r == Err::<(), RunOpError>(RunOpError::PtrOutOfBounds) && machine_of(*final(self), *io) == machine_of(*old(self), *io),
            },
            (final(self).cell_ptr as int) < final(self).cells@.len(),
    {
        let other = match self.get_valid_ptr(shift) {
            Ok(n) => n,
            Err(e) => {
                return Err(e);
            },
        };
        let v = wrapping_add_u8(self.cells[other], self.cells[self.cell_ptr]);
        self.cells.set(other, v);
        Ok(())
    }

    /// Runs one operation, counting it into `lc` if `count` is set (see
    /// `prof_one`). Loops run at most `fuel` iterations, each with one unit of
    /// fuel less.
    fn run_op_c(&mut self, op: &BfOp, io: &mut BfIo, cpu_config: Option<&CpuConfig>, lc: &mut LoopCount, count: bool,
        fuel: u64) -> (r: Result<(), RunOpError>)
        requires
            machine_wf(machine_of(*old(self), *old(io))),
            cfg_ok_for(cpu_config, uses_check_op(op_view(*op))),
            count ==> old(lc).next_loop <= old(lc).children_counts@.len(),
        ensures
            outcome_matches(r, *final(self), *final(io), run_one(op_view(*op), machine_of(*old(self), *old(io)), tracks_of(cpu_config), fuel as nat)),
            machine_wf(machine_of(*final(self), *final(io))),
            count ==> lc_view(*final(lc)) == prof_one(op_view(*op), machine_of(*old(self), *old(io)), tracks_of(cpu_config), fuel as nat,
                lc_view(*old(lc))),
            count ==> final(lc).next_loop <= final(lc).children_counts@.len(),
            !count ==> *final(lc) == *old(lc),
        decreases fuel, op, 0nat,
    {
        let ghost m0 = machine_of(*self, *io);
        let ghost t = tracks_of(cpu_config);
        let ghost lc0 = lc_view(*lc);
        if count {
            match op {
                BfOp::Comment(_) => {},
                BfOp::Breakpoint => {},
                BfOp::DebugMessage(_) => {},
                BfOp::CheckScratchIsEmptyFromHere(_) => {},
                BfOp::PrintRegisters => {},
                _ => {
                    lc.self_instrs_executed = wrapping_add_u64(lc.self_instrs_executed, 1);
                    lc.tot_instrs_executed = wrapping_add_u64(lc.tot_instrs_executed, 1);
                },
            }
            proof { lemma_lc_view_fields(*lc); lemma_lc_view_fields(*old(lc)); }
            assert(lc_view(*lc) == (if counted(op_view(*op)) {
                LoopCountView { self_instrs: wadd64(lc0.self_instrs, 1), tot_instrs: wadd64(lc0.tot_instrs, 1), ..lc0 }
            } else {
                lc0
            }));
        }
        match op {
            BfOp::Loop(body) => {
                if count {
                    let ghost c0 = lc_view(*lc);
                    if lc.next_loop >= lc.children_counts.len() {
                        let ghost a = *lc;
                        let n = LoopCount::new();
                        let ghost gn = n;
                        lc.children_counts.push(n);
                        proof { lemma_lc_view_push(a, *lc, gn); }
                    }
                    let ghost c1 = lc_view(*lc);
                    let idx = lc.next_loop;
                    let len_before = lc.children_counts.len();
                    assert(idx < len_before);
                    let ghost before = *lc;
                    let mut child = lc.children_counts.remove(idx);
                    let at_begin = child.tot_instrs_executed;
                    let ghost k = lc_view(child);
                    let res = self.run_loop_c(body, io, cpu_config, &mut child, true, fuel);
                    let end = child.tot_instrs_executed;
                    let ghost k2 = lc_view(child);
                    lc.children_counts.insert(idx, child);
                    lc.next_loop = idx + 1;
                    proof {
                        assert(lc.children_counts@ =~= before.children_counts@.update(idx as int, child));
                        lemma_lc_view_update(before, *lc, idx as int, child);
                        lemma_lc_view_fields(child);
                    }
                    match res {
                        Ok(()) => {
                            lc.tot_instrs_executed = wrapping_add_u64(lc.tot_instrs_executed, wrapping_sub_u64(end, at_begin));
                            proof { lemma_lc_view_fields(*lc); }
                        },
                        Err(e) => {
                            return Err(e);
                        },
                    }
                } else {
                    let mut dummy = LoopCount::new();
                    match self.run_loop_c(body, io, cpu_config, &mut dummy, false, fuel) {
                        Ok(()) => {},
                        Err(e) => {
                            return Err(e);
                        },
                    }
                }
                return Ok(());
            },
            _ => {},
        }
        self.run_simple_op(op, io, cpu_config, fuel)
    }

    /// Runs one operation that is not a loop.
    fn run_simple_op(&mut self, op: &BfOp, io: &mut BfIo, cpu_config: Option<&CpuConfig>, fuel: u64) -> (r: Result<(), RunOpError>)
        requires
            machine_wf(machine_of(*old(self), *old(io))),
            cfg_ok_for(cpu_config, uses_check_op(op_view(*op))),
            !(*op is Loop),
        ensures
            outcome_matches(r, *final(self), *final(io), run_one(op_view(*op), machine_of(*old(self), *old(io)), tracks_of(cpu_config), fuel as nat)),
            machine_wf(machine_of(*final(self), *final(io))),
    {
        let ghost m0 = machine_of(*self, *io);
        let ghost t = tracks_of(cpu_config);
        match op {
            BfOp::Left => {
                if self.cell_ptr == 0 {
                    return Err(RunOpError::PtrOutOfBounds);
                }
                self.cell_ptr = self.cell_ptr - 1;
            },
            BfOp::Right => {
                let len = self.cells.len();
                self.cell_ptr = self.cell_ptr + 1;
                if self.cell_ptr >= self.cells.len() {
                    self.cells.push(0);
                    assert(self.cells@ =~= grow(m0.cells, m0.ptr + 1));
                }
            },
            BfOp::Inc => {
                let v = wrapping_add_u8(self.cells[self.cell_ptr], 1);
                self.cells.set(self.cell_ptr, v);
            },
            BfOp::Dec => {
                let v = wrapping_add_u8(self.cells[self.cell_ptr], 255);
                self.cells.set(self.cell_ptr, v);
            },
            BfOp::In => {
                let v = io.read_byte();
                self.cells.set(self.cell_ptr, v);
            },
            BfOp::Out => {
                io.output.push(self.cells[self.cell_ptr]);
            },
            BfOp::Loop(_) => {},
            BfOp::Clr => {
                self.cells.set(self.cell_ptr, 0);
            },
            BfOp::Shift(s) => {
                let n = self.get_valid_ptr(*s)?;
                self.cell_ptr = n;
            },
            BfOp::Add(a) => {
                let v = wrapping_add_u8(self.cells[self.cell_ptr], *a);
                self.cells.set(self.cell_ptr, v);
            },
            BfOp::MoveAdd(s) => {
                self.add_current_to(io, *s)?;
                self.cells.set(self.cell_ptr, 0);
            },
            BfOp::MoveAdd2(s1, s2) => {
                self.add_current_to(io, *s1)?;
                self.add_current_to(io, *s2)?;
                self.cells.set(self.cell_ptr, 0);
            },
            BfOp::Comment(_) => {},
            BfOp::DebugMessage(msg) => {
                io.messages.push(msg.clone());
                assert(messages_view(io.messages@) =~= m0.messages.push(msg@));
            },
            BfOp::Crash(msg) => {
                io.messages.push(msg.clone());
                assert(messages_view(io.messages@) =~= m0.messages.push(msg@));
                return Err(RunOpError::Crashed);
            },
            BfOp::Breakpoint => {},
            BfOp::PrintRegisters => {},
            BfOp::CheckScratchIsEmptyFromHere(msg) => {
                assert(m0 == machine_of(*old(self), *old(io)));
                assert(t == tracks_of(cpu_config));
                assert(run_one(op_view(*op), m0, t, fuel as nat) == crate::semantics::step(op_view(*op), m0, t));
                if let Some(cfg) = cpu_config {
                    let num_tracks = cfg.tracks.len();
                    let mut i = self.cell_ptr;
                    while i < self.cells.len()
                        invariant
                            num_tracks > 0,
                            num_tracks == cfg.tracks@.len(),
                            first_nonzero_from(m0.cells, m0.ptr, num_tracks as int) == first_nonzero_from(m0.cells, i as int, num_tracks as int),
                            m0 == machine_of(*self, *io),
                            m0 == machine_of(*old(self), *old(io)),
                            cpu_config == Some(cfg),
                            op_view(*op) == Op::CheckScratchIsEmptyFromHere(msg@),
                            machine_wf(m0),
                            run_one(op_view(*op), m0, t, fuel as nat) == crate::semantics::step(op_view(*op), m0, t),
                            t == tracks_of(cpu_config),
                        decreases self.cells@.len() + num_tracks - i,
                    {
                        let len = self.cells.len();
                        if self.cells[i] != 0 {
                            assert(first_nonzero_from(m0.cells, i as int, num_tracks as int) == Some(i as int));
                            assert(op_view(*op) == Op::CheckScratchIsEmptyFromHere(msg@));
                            return Err(RunOpError::Other(scratch_error_message(i, self.cells[i], msg)));
                        }
                        if i >= usize::MAX - num_tracks {
                            assert(first_nonzero_from(m0.cells, i as int, num_tracks as int) == None::<int>);
                            assert(op_view(*op) == Op::CheckScratchIsEmptyFromHere(msg@));
                            return Ok(());
                        }
                        i = i + num_tracks;
                    }
                }
            },
        }
        Ok(())
    }

    /// Runs a loop: its body while the cell at the pointer is not zero,
    /// counting into `k` if `count` is set (see `prof_loop`).
    fn run_loop_c(&mut self, body: &Vec<BfOp>, io: &mut BfIo, cpu_config: Option<&CpuConfig>, k: &mut LoopCount, count: bool,
        fuel: u64) -> (r: Result<(), RunOpError>)
        requires
            machine_wf(machine_of(*old(self), *old(io))),
            cfg_ok_for(cpu_config, uses_check(ops_view(body@))),
        ensures
            outcome_matches(r, *final(self), *final(io), run_loop(ops_view(body@), machine_of(*old(self), *old(io)), tracks_of(cpu_config), fuel as nat)),
            machine_wf(machine_of(*final(self), *final(io))),
            count ==> lc_view(*final(k)) == prof_loop(ops_view(body@), machine_of(*old(self), *old(io)), tracks_of(cpu_config), fuel as nat,
                lc_view(*old(k))),
            !count ==> *final(k) == *old(k),
        decreases fuel, body, 1nat,
    {
        let ghost m0 = machine_of(*self, *io);
        let ghost t = tracks_of(cpu_config);
        let ghost k0 = lc_view(*k);
        let mut f = fuel;
        while self.cells[self.cell_ptr] != 0
            invariant
                machine_wf(machine_of(*self, *io)),
                cfg_ok_for(cpu_config, uses_check(ops_view(body@))),
                run_loop(ops_view(body@), m0, t, fuel as nat) == run_loop(ops_view(body@), machine_of(*self, *io), t, f as nat),
                count ==> prof_loop(ops_view(body@), m0, t, fuel as nat, k0) == prof_loop(ops_view(body@), machine_of(*self, *io), t, f as nat, lc_view(*k)),
                !count ==> *k == *old(k),
                t == tracks_of(cpu_config),
                f <= fuel,
                m0 == machine_of(*old(self), *old(io)),
                k0 == lc_view(*old(k)),
            decreases f,
        {
            if f == 0 {
                assert(run_loop(ops_view(body@), machine_of(*self, *io), t, 0) == (machine_of(*self, *io), Some(RunErr::OutOfFuel)));
                let r = Err(RunOpError::OutOfFuel);
                assert(err_view(r->Err_0) == RunErr::OutOfFuel);
                return r;
            }
            let ghost mc = machine_of(*self, *io);
            let ghost fo = f;
            let ghost kc = lc_view(*k);
            f = f - 1;
            if count {
                k.num_times_loop_run = wrapping_add_u64(k.num_times_loop_run, 1);
                k.next_loop = 0;
                proof { lemma_lc_view_fields(*k); }
                assert(lc_view(*k) == LoopCountView { runs: wadd64(kc.runs, 1), next: 0, ..kc });
            }
            match self.run_ops_c(body, io, cpu_config, k, count, f) {
                Ok(()) => {
                    assert(run_loop(ops_view(body@), mc, t, fo as nat) == run_loop(ops_view(body@), machine_of(*self, *io), t, f as nat));
                },
                Err(e) => {
                    assert(run_loop(ops_view(body@), mc, t, fo as nat) == (machine_of(*self, *io), Some(err_view(e))));
                    return Err(e);
                },
            }
        }
        Ok(())
    }

    /// Runs one operation. Loops run at most `fuel` iterations, each with one
    /// unit of fuel less. With a loop count, the run is counted into it (see
    /// `prof_one`).
    pub fn run_op_f(&mut self, op: &BfOp, io: &mut BfIo, cpu_config: Option<&CpuConfig>, loop_count: Option<&mut LoopCount>,
        fuel: u64) -> (r: Result<(), RunOpError>)
        requires
            machine_wf(machine_of(*old(self), *old(io))),
            cfg_ok_for(cpu_config, uses_check_op(op_view(*op))),
            loop_count is Some ==> (*(loop_count->0)).next_loop <= (*(loop_count->0)).children_counts@.len(),
        ensures
            outcome_matches(r, *final(self), *final(io), run_one(op_view(*op), machine_of(*old(self), *old(io)), tracks_of(cpu_config), fuel as nat)),
            machine_wf(machine_of(*final(self), *final(io))),
            loop_count is Some ==> lc_view(*final(loop_count->0)) == prof_one(op_view(*op), machine_of(*old(self), *old(io)),
                tracks_of(cpu_config), fuel as nat, lc_view(*(loop_count->0))),
            loop_count is Some ==> final(loop_count->0).next_loop <= final(loop_count->0).children_counts@.len(),
    {
        match loop_count {
            Some(lc) => self.run_op_c(op, io, cpu_config, lc, true, fuel),
            None => {
                let mut unused = LoopCount::new();
                self.run_op_c(op, io, cpu_config, &mut unused, false, fuel)
            },
        }
    }

    /// Runs a program with as much fuel as a `u64` holds; with a loop count,
    /// the run is counted into it (see `prof_seq`).
    pub fn run_ops(&mut self, ops: &Vec<BfOp>, io: &mut BfIo, cpu_config: Option<&CpuConfig>, loop_count: Option<&mut LoopCount>)
        -> (r: Result<(), RunOpError>)
        requires
            machine_wf(machine_of(*old(self), *old(io))),
            cfg_ok_for(cpu_config, uses_check(ops_view(ops@))),
            loop_count is Some ==> (*(loop_count->0)).next_loop <= (*(loop_count->0)).children_counts@.len(),
        ensures
            outcome_matches(r, *final(self), *final(io), run_seq(ops_view(ops@), machine_of(*old(self), *old(io)), tracks_of(cpu_config), u64::MAX as nat)),
            machine_wf(machine_of(*final(self), *final(io))),
            loop_count is Some ==> lc_view(*final(loop_count->0)) == prof_seq(ops_view(ops@), machine_of(*old(self), *old(io)),
                tracks_of(cpu_config), u64::MAX as nat, lc_view(*(loop_count->0))),
            loop_count is Some ==> final(loop_count->0).next_loop <= final(loop_count->0).children_counts@.len(),
    {
        self.run_ops_f(ops, io, cpu_config, loop_count, u64::MAX)
    }

    /// Runs a sequence of operations. Loops run at most `fuel` iterations, each
    /// with one unit of fuel less; with a loop count, the run is counted into it.
    pub fn run_ops_f(&mut self, ops: &Vec<BfOp>, io: &mut BfIo, cpu_config: Option<&CpuConfig>, loop_count: Option<&mut LoopCount>,
        fuel: u64) -> (r: Result<(), RunOpError>)
        requires
            machine_wf(machine_of(*old(self), *old(io))),
            cfg_ok_for(cpu_config, uses_check(ops_view(ops@))),
            loop_count is Some ==> (*(loop_count->0)).next_loop <= (*(loop_count->0)).children_counts@.len(),
        ensures
            outcome_matches(r, *final(self), *final(io), run_seq(ops_view(ops@), machine_of(*old(self), *old(io)), tracks_of(cpu_config), fuel as nat)),
            machine_wf(machine_of(*final(self), *final(io))),
            loop_count is Some ==> lc_view(*final(loop_count->0)) == prof_seq(ops_view(ops@), machine_of(*old(self), *old(io)),
                tracks_of(cpu_config), fuel as nat, lc_view(*(loop_count->0))),
            loop_count is Some ==> final(loop_count->0).next_loop <= final(loop_count->0).children_counts@.len(),
    {
        match loop_count {
            Some(lc) => self.run_ops_c(ops, io, cpu_config, lc, true, fuel),
            None => {
                let mut unused = LoopCount::new();
                self.run_ops_c(ops, io, cpu_config, &mut unused, false, fuel)
            },
        }
    }

    /// Runs a sequence of operations, counting into `lc` if `count` is set.
    fn run_ops_c(&mut self, ops: &Vec<BfOp>, io: &mut BfIo, cpu_config: Option<&CpuConfig>, lc: &mut LoopCount, count: bool,
        fuel: u64) -> (r: Result<(), RunOpError>)
        requires
            machine_wf(machine_of(*old(self), *old(io))),
            cfg_ok_for(cpu_config, uses_check(ops_view(ops@))),
            count ==> old(lc).next_loop <= old(lc).children_counts@.len(),
        ensures
            outcome_matches(r, *final(self), *final(io), run_seq(ops_view(ops@), machine_of(*old(self), *old(io)), tracks_of(cpu_config), fuel as nat)),
            machine_wf(machine_of(*final(self), *final(io))),
            count ==> lc_view(*final(lc)) == prof_seq(ops_view(ops@), machine_of(*old(self), *old(io)), tracks_of(cpu_config), fuel as nat,
                lc_view(*old(lc))),
            count ==> final(lc).next_loop <= final(lc).children_counts@.len(),
            !count ==> *final(lc) == *old(lc),
        decreases fuel, ops, 0nat,
    {
        let ghost m0 = machine_of(*self, *io);
        let ghost t = tracks_of(cpu_config);
        let ghost s = ops_view(ops@);
        let ghost c0 = lc_view(*lc);
        let mut i: usize = 0;
        assert(s.skip(0) =~= s);
        while i < ops.len()
            invariant
                0 <= i <= ops@.len(),
                s == ops_view(ops@),
                t == tracks_of(cpu_config),
                machine_wf(machine_of(*self, *io)),
                cfg_ok_for(cpu_config, uses_check(s)),
                run_seq(s, m0, t, fuel as nat) == run_seq(s.skip(i as int), machine_of(*self, *io), t, fuel as nat),
                count ==> prof_seq(s, m0, t, fuel as nat, c0) == prof_seq(s.skip(i as int), machine_of(*self, *io), t, fuel as nat, lc_view(*lc)),
                count ==> lc.next_loop <= lc.children_counts@.len(),
                !count ==> *lc == *old(lc),
                m0 == machine_of(*old(self), *old(io)),
                c0 == lc_view(*old(lc)),
            decreases ops@.len() - i,
        {
            assert(s.skip(i as int)[0] == op_view(ops@[i as int]));
            assert(s.skip(i as int).drop_first() =~= s.skip(i + 1));
            proof {
                if uses_check_op(s[i as int]) {
                    crate::semantics::lemma_uses_check_index(s, i as int);
                }
            }
            let ghost mc = machine_of(*self, *io);
            match self.run_op_c(&ops[i], io, cpu_config, lc, count, fuel) {
                Ok(()) => {},
                Err(e) => {
                    assert(run_seq(s.skip(i as int), mc, t, fuel as nat) == (machine_of(*self, *io), Some(err_view(e))));
                    return Err(e);
                },
            }
            i = i + 1;
        }
        assert(s.skip(i as int) =~= Seq::<Op>::empty());
        Ok(())
    }
}

/// The model of a count, field by field.
proof fn lemma_lc_view_fields(c: LoopCount)
    ensures
        lc_view(c).self_instrs == c.self_instrs_executed,
        lc_view(c).tot_instrs == c.tot_instrs_executed,
        lc_view(c).runs == c.num_times_loop_run,
        lc_view(c).next == c.next_loop as int,
        lc_view(c).children.len() == c.children_counts@.len(),
        forall|i: int| 0 <= i < c.children_counts@.len() ==> #[trigger] lc_view(c).children[i] == lc_view(c.children_counts@[i]),
{
}

/// A fresh count is pushed as the last child.
proof fn lemma_lc_view_push(a: LoopCount, b: LoopCount, n: LoopCount)
    requires
        n.self_instrs_executed == 0,
        n.tot_instrs_executed == 0,
        n.num_times_loop_run == 0,
        n.children_counts@.len() == 0,
        n.next_loop == 0,
        b.children_counts@ == a.children_counts@.push(n),
        b.self_instrs_executed == a.self_instrs_executed,
        b.tot_instrs_executed == a.tot_instrs_executed,
        b.num_times_loop_run == a.num_times_loop_run,
        b.next_loop == a.next_loop,
    ensures lc_view(b) == (LoopCountView { children: lc_view(a).children.push(fresh_count()), ..lc_view(a) }),
{
    assert(lc_view(n).children =~= Seq::<LoopCountView>::empty());
    assert(lc_view(b).children =~= lc_view(a).children.push(fresh_count()));
}

/// A child is replaced.
proof fn lemma_lc_view_update(a: LoopCount, b: LoopCount, idx: int, child: LoopCount)
    requires
        0 <= idx < a.children_counts@.len(),
        b.children_counts@ == a.children_counts@.update(idx, child),
    ensures lc_view(b).children == lc_view(a).children.update(idx, lc_view(child)),
{
    assert(lc_view(b).children =~= lc_view(a).children.update(idx, lc_view(child)));
}

impl BfIo {
    /// Reads the next input byte: carriage returns are skipped, and the end of input reads as 0.
    pub fn read_byte(&mut self) -> (r: u8)
        requires old(self).input_pos <= old(self).input@.len(),
        ensures
            (r, final(self).input_pos as int) == read_in(old(self).input@, old(self).input_pos as int),
            final(self).input@ == old(self).input@,
            final(self).output@ == old(self).output@,
            final(self).messages@ == old(self).messages@,
            final(self).input_pos <= final(self).input@.len(),
    {
        while self.input_pos < self.input.len() && self.input[self.input_pos] == 13
            invariant
                self.input_pos <= self.input@.len(),
                read_in(old(self).input@, old(self).input_pos as int) == read_in(self.input@, self.input_pos as int),
                self.input@ == old(self).input@,
                self.output@ == old(self).output@,
                self.messages@ == old(self).messages@,
            decreases self.input@.len() - self.input_pos,
        {
            self.input_pos = self.input_pos + 1;
        }
        if self.input_pos < self.input.len() {
            let v = self.input[self.input_pos];
            self.input_pos = self.input_pos + 1;
            v
        } else {
            0
        }
    }
}

}
verus! {

/// The characters of a string.
pub fn str_chars(s: &str) -> (r: Vec<char>)
    ensures r@ == s@,
{
    let mut r: Vec<char> = Vec::new();
    for c in it: s.chars()
        invariant
            r@ == it.seq().take(it.index() as int),
    {
        r.push(c);
        assert(r@ =~= it.seq().take(it.index() as int + 1));
    }
    assert(r@ =~= s@);
    r
}

}
verus! {

#[derive(Debug, Copy, Clone, PartialEq, Eq, Structural)]
pub struct TextPos {
    pub line_num: usize,
    pub col: usize,
}

#[derive(Debug, Copy, Clone, PartialEq, Eq, Structural)]
pub struct UnbalancedOpenBracket {
    pub pos: TextPos,
}

#[derive(Debug, Copy, Clone, PartialEq, Eq, Structural)]
pub struct UnbalancedCloseBracket {
    pub pos: TextPos,
}

#[derive(Debug, PartialEq, Eq, Structural)]
pub enum ParseBfProgError {
    UnbalancedOpenBracket(UnbalancedOpenBracket),
    UnbalancedCloseBracket(UnbalancedCloseBracket),
}

/// Whether character `i` belongs to a line (line breaks, `\n` or `\r\n`, do not).
pub open spec fn kept(c: Seq<char>, i: int) -> bool {
    c[i] != '\n' && !(c[i] == '\r' && i + 1 < c.len() && c[i + 1] == '\n')
}

/// The first `n` characters of `c` without their line breaks.
pub open spec fn strip_lines(c: Seq<char>, n: int) -> Seq<char>
    decreases n,
{
    if n <= 0 {
        Seq::empty()
    } else if kept(c, n - 1) {
        strip_lines(c, n - 1).push(c[n - 1])
    } else {
        strip_lines(c, n - 1)
    }
}

/// Nesting depth before character `n`: the number of `[` minus the number of `]`.
pub open spec fn depth(c: Seq<char>, n: int) -> int
    decreases n,
{
    if n <= 0 {
        0
    } else if c[n - 1] == '[' {
        depth(c, n - 1) + 1
    } else if c[n - 1] == ']' {
        depth(c, n - 1) - 1
    } else {
        depth(c, n - 1)
    }
}

/// Index where the line holding character `i` starts.
pub open spec fn line_start(c: Seq<char>, i: int) -> int
    decreases i,
{
    if i <= 0 {
        0
    } else if c[i - 1] == '\n' {
        i
    } else {
        line_start(c, i - 1)
    }
}

/// Number of line feeds before character `i`.
pub open spec fn line_feeds(c: Seq<char>, i: int) -> int
    decreases i,
{
    if i <= 0 {
        0
    } else if c[i - 1] == '\n' {
        line_feeds(c, i - 1) + 1
    } else {
        line_feeds(c, i - 1)
    }
}

/// The (1-based) line and column of character `i`.
pub open spec fn text_pos(c: Seq<char>, i: int) -> TextPos {
    TextPos { line_num: (line_feeds(c, i) + 1) as usize, col: (i - line_start(c, i) + 1) as usize }
}

/// `]` at `i` closes nothing.
pub open spec fn is_bad_close(c: Seq<char>, i: int) -> bool {
    c[i] == ']' && depth(c, i) == 0
}

pub open spec fn no_bad_close_before(c: Seq<char>, n: int) -> bool {
    forall|k: int| 0 <= k < n ==> !#[trigger] is_bad_close(c, k)
}

/// `i` is the first `]` that closes nothing.
pub open spec fn first_bad_close(c: Seq<char>, i: int) -> bool {
    0 <= i < c.len() && is_bad_close(c, i) && no_bad_close_before(c, i)
}

/// `j` is the last `[` opened at depth `d` among the first `n` characters.
pub open spec fn last_open_at(c: Seq<char>, n: int, d: int, j: int) -> bool {
    &&& 0 <= j < n
    &&& c[j] == '['
    &&& depth(c, j) == d
    &&& forall|k: int| j < k < n && c[k] == '[' ==> depth(c, k) != d
}

/// Each `ps[d]` is the position of the last `[` opened at depth `d` among the first `n` characters.
pub open spec fn opens_ok(c: Seq<char>, n: int, ps: Seq<TextPos>) -> bool {
    forall|d: int| 0 <= d < ps.len() ==> #[trigger] open_pos_ok(c, n, d, ps[d])
}

/// `p` is the position of the last `[` opened at depth `d` among the first `n` characters.
pub open spec fn open_pos_ok(c: Seq<char>, n: int, d: int, p: TextPos) -> bool {
    exists|j: int| last_open_at(c, n, d, j) && p == text_pos(c, j)
}

proof fn lemma_opens_other(c: Seq<char>, i: int, ps: Seq<TextPos>, k: int)
    requires
        opens_ok(c, i, ps),
        0 <= i < c.len(),
        c[i] != '[',
        0 <= k <= ps.len(),
    ensures
        opens_ok(c, i + 1, ps.take(k)),
{
    assert forall|d: int| 0 <= d < ps.take(k).len() implies #[trigger] open_pos_ok(c, i + 1, d, ps.take(k)[d]) by {
        assert(open_pos_ok(c, i, d, ps[d]));
        let j = choose|j: int| last_open_at(c, i, d, j) && ps[d] == text_pos(c, j);
        assert(last_open_at(c, i + 1, d, j));
    }
}

proof fn lemma_opens_push(c: Seq<char>, i: int, ps: Seq<TextPos>)
    requires
        opens_ok(c, i, ps),
        0 <= i < c.len(),
        c[i] == '[',
        ps.len() == depth(c, i),
    ensures
        opens_ok(c, i + 1, ps.push(text_pos(c, i))),
{
    let ps2 = ps.push(text_pos(c, i));
    assert forall|d: int| 0 <= d < ps2.len() implies #[trigger] open_pos_ok(c, i + 1, d, ps2[d]) by {
        if d < ps.len() {
            assert(open_pos_ok(c, i, d, ps[d]));
            let j = choose|j: int| last_open_at(c, i, d, j) && ps[d] == text_pos(c, j);
            assert(last_open_at(c, i + 1, d, j));
        } else {
            assert(last_open_at(c, i + 1, d, i));
        }
    }
}

spec fn open_positions(stack: Seq<StackFrame>) -> Seq<TextPos> {
    stack.map_values(|f: StackFrame| f.open_bracket_pos)
}

struct StackFrame {
    open_bracket_pos: TextPos,
    ops: Vec<BfOp>,
}

spec fn frames_text(frames: Seq<StackFrame>) -> Seq<char>
    decreases frames.len(),
{
    if frames.len() == 0 {
        Seq::empty()
    } else {
        frames_text(frames.drop_last()) + text_of(ops_view(frames.last().ops@)) + seq!['[']
    }
}

/// A token of Brainfuck text: an operator or a comment, or a bracket.
pub enum BfToken {
    Op(Op),
    Open,
    Close,
}

/// A program written out as tokens: a loop becomes its brackets around the
/// tokens of its body.
pub open spec fn tokens_of(ops: Seq<Op>) -> Seq<BfToken>
    decreases ops, 0nat,
{
    if ops.len() == 0 {
        Seq::empty()
    } else {
        tokens_of(ops.drop_last()) + op_tokens(ops.last())
    }
}

pub open spec fn op_tokens(op: Op) -> Seq<BfToken>
    decreases op, 1nat,
{
    match op {
        Op::Loop(body) => seq![BfToken::Open] + tokens_of(body) + seq![BfToken::Close],
        _ => seq![BfToken::Op(op)],
    }
}

pub proof fn lemma_tokens_of_push(ops: Seq<Op>, op: Op)
    ensures tokens_of(ops.push(op)) == tokens_of(ops) + op_tokens(op),
{
    assert(ops.push(op).drop_last() =~= ops);
}

/// The eight operator characters.
pub open spec fn is_bf_char(ch: char) -> bool {
    ch == '<' || ch == '>' || ch == '+' || ch == '-' || ch == ',' || ch == '.' || ch == '[' || ch == ']'
}

/// The token of an operator character.
pub open spec fn char_token(ch: char) -> BfToken {
    if ch == '<' {
        BfToken::Op(Op::Left)
    } else if ch == '>' {
        BfToken::Op(Op::Right)
    } else if ch == '+' {
        BfToken::Op(Op::Inc)
    } else if ch == '-' {
        BfToken::Op(Op::Dec)
    } else if ch == ',' {
        BfToken::Op(Op::In)
    } else if ch == '.' {
        BfToken::Op(Op::Out)
    } else if ch == '[' {
        BfToken::Open
    } else {
        BfToken::Close
    }
}

/// The tokens with a pending comment closed, if it holds anything.
pub open spec fn flush_comment(t: Seq<BfToken>, m: Seq<char>) -> Seq<BfToken> {
    if m.len() > 0 {
        t.push(BfToken::Op(Op::Comment(m)))
    } else {
        t
    }
}

/// Reading the first `n` characters: the tokens so far and the comment still
/// open. A line feed or an operator closes the comment; a carriage return
/// just before a line feed is skipped; any other character joins the comment.
#[verifier::opaque]
pub open spec fn lex(c: Seq<char>, n: int) -> (Seq<BfToken>, Seq<char>)
    decreases n,
{
    if n <= 0 {
        (Seq::empty(), Seq::empty())
    } else {
        let (t, m) = lex(c, n - 1);
        let ch = c[n - 1];
        if ch == '\n' {
            (flush_comment(t, m), Seq::empty())
        } else if !kept(c, n - 1) {
            (t, m)
        } else if is_bf_char(ch) {
            (flush_comment(t, m).push(char_token(ch)), Seq::empty())
        } else {
            (t, m.push(ch))
        }
    }
}

/// The tokens of a Brainfuck text: each operator character gives its
/// operator or bracket, and each longest run of other characters within a
/// line gives one comment.
pub open spec fn bf_tokens(c: Seq<char>) -> Seq<BfToken> {
    flush_comment(lex(c, c.len() as int).0, lex(c, c.len() as int).1)
}

proof fn lemma_lex_zero(c: Seq<char>)
    ensures lex(c, 0) == (Seq::<BfToken>::empty(), Seq::<char>::empty()),
{
    reveal(lex);
}

proof fn lemma_lex_step(c: Seq<char>, n: int)
    requires 0 <= n < c.len(),
    ensures
        lex(c, n + 1) == ({
            let (t, m) = lex(c, n);
            let ch = c[n];
            if ch == '\n' {
                (flush_comment(t, m), Seq::empty())
            } else if !kept(c, n) {
                (t, m)
            } else if is_bf_char(ch) {
                (flush_comment(t, m).push(char_token(ch)), Seq::empty())
            } else {
                (t, m.push(ch))
            }
        }),
{
    reveal_with_fuel(lex, 2);
}

proof fn lemma_tok_push(ft: Seq<BfToken>, ops: Seq<Op>, op: Op)
    requires !(op is Loop),
    ensures ft + tokens_of(ops.push(op)) == (ft + tokens_of(ops)).push(BfToken::Op(op)),
{
    lemma_tokens_of_push(ops, op);
    assert(ft + tokens_of(ops.push(op)) =~= (ft + tokens_of(ops)).push(BfToken::Op(op)));
}

proof fn lemma_tok_close(fp: Seq<BfToken>, ops: Seq<Op>, body: Seq<Op>)
    ensures
        fp + tokens_of(ops.push(Op::Loop(body)))
            == (fp + tokens_of(ops) + seq![BfToken::Open] + tokens_of(body)).push(BfToken::Close),
{
    lemma_tokens_of_push(ops, Op::Loop(body));
    assert(fp + tokens_of(ops.push(Op::Loop(body)))
        =~= (fp + tokens_of(ops) + seq![BfToken::Open] + tokens_of(body)).push(BfToken::Close));
}

proof fn lemma_frames_tokens_push(st: Seq<StackFrame>, f: StackFrame)
    ensures frames_tokens(st.push(f)) == frames_tokens(st) + tokens_of(ops_view(f.ops@)) + seq![BfToken::Open],
{
    assert(st.push(f).drop_last() =~= st);
}

proof fn lemma_tok_open(a: Seq<BfToken>, e: Seq<BfToken>)
    requires e.len() == 0,
    ensures (a + seq![BfToken::Open]) + e == a.push(BfToken::Open),
{
    assert((a + seq![BfToken::Open]) + e =~= a.push(BfToken::Open));
}

spec fn frames_tokens(frames: Seq<StackFrame>) -> Seq<BfToken>
    decreases frames.len(),
{
    if frames.len() == 0 {
        Seq::empty()
    } else {
        frames_tokens(frames.drop_last()) + tokens_of(ops_view(frames.last().ops@)) + seq![BfToken::Open]
    }
}

#[verifier::external_body]
pub(crate) fn string_push(s: &mut String, c: char)
    ensures final(s)@ == old(s)@.push(c),
{
    s.push(c);
}

#[verifier::rlimit(100)]
#[verifier::spinoff_prover]
/// Parses Brainfuck text. Characters other than the eight operators become
/// comments, one per run of such characters within a line.
pub fn parse_bf(s: &str) -> (r: Result<Vec<BfOp>, ParseBfProgError>)
    requires s@.len() < usize::MAX,
    ensures
        match r {
            Ok(ops) => {
                &&& no_bad_close_before(s@, s@.len() as int)
                &&& depth(s@, s@.len() as int) == 0
                &&& text_of(ops_view(ops@)) == strip_lines(s@, s@.len() as int)
                &&& tokens_of(ops_view(ops@)) == bf_tokens(s@)
                &&& plain_seq(ops_view(ops@))
            },
            Err(ParseBfProgError::UnbalancedCloseBracket(e)) => exists|i: int| first_bad_close(s@, i) && e.pos == text_pos(s@, i),
            Err(ParseBfProgError::UnbalancedOpenBracket(e)) => {
                &&& no_bad_close_before(s@, s@.len() as int)
                &&& depth(s@, s@.len() as int) > 0
                &&& exists|j: int| last_open_at(s@, s@.len() as int, depth(s@, s@.len() as int) - 1, j) && e.pos == text_pos(s@, j)
            },
        },
{
    let c = str_chars(s);
    let ghost cs = c@;
    let mut stack: Vec<StackFrame> = Vec::new();
    let mut cur: Vec<BfOp> = Vec::new();
    let mut comment = String::new();
    let mut comment_len: usize = 0;
    let mut line_num: usize = 1;
    let mut col: usize = 1;
    proof { lemma_lex_zero(cs); }
    let mut i: usize = 0;
    while i < c.len()
        invariant
            cs == c@,
            cs == s@,
            0 <= i <= cs.len(),
            no_bad_close_before(cs, i as int),
            depth(cs, i as int) == stack@.len(),
            opens_ok(cs, i as int, open_positions(stack@)),
            strip_lines(cs, i as int) == frames_text(stack@) + text_of(ops_view(cur@)) + comment@,
            lex(cs, i as int).0 == frames_tokens(stack@) + tokens_of(ops_view(cur@)),
            lex(cs, i as int).1 == comment@,
            plain_seq(ops_view(cur@)),
            forall|k: int| 0 <= k < stack@.len() ==> plain_seq(ops_view(#[trigger] stack@[k].ops@)),
            comment_len == comment@.len(),
            comment_len <= i,
            cs.len() < usize::MAX,
            line_num == line_feeds(cs, i as int) + 1,
            col == i - line_start(cs, i as int) + 1,
            line_num <= i + 1,
            col <= i + 1,
        decreases cs.len() - i,
    {
        let ch = c[i];
        let pos = TextPos { line_num, col };
        let ghost old_stack = stack@;
        let ghost old_cur = cur@;
        let ghost ps0 = open_positions(stack@);
        let ghost t0 = frames_tokens(stack@) + tokens_of(ops_view(cur@));
        let ghost m0 = comment@;
        let ghost ft = frames_tokens(stack@);
        proof { lemma_lex_step(cs, i as int); }
        assert(pos == text_pos(cs, i as int));
        if ch == '\n' || (ch == '\r' && i + 1 < c.len() && c[i + 1] == '\n') {
            proof {
                lemma_opens_other(cs, i as int, ps0, ps0.len() as int);
                assert(ps0.take(ps0.len() as int) =~= ps0);
            }
        }
        if ch == '\n' {
            if comment_len > 0 {
                proof { lemma_ops_view_push(cur@, BfOp::Comment(comment)); lemma_text_of_push(ops_view(cur@), Op::Comment(comment@)); lemma_plain_push(ops_view(cur@), Op::Comment(comment@)); lemma_tok_push(ft, ops_view(cur@), Op::Comment(comment@)); }
                cur.push(BfOp::Comment(comment));
                comment = String::new();
                comment_len = 0;
            }
            assert(frames_tokens(stack@) + tokens_of(ops_view(cur@)) == flush_comment(t0, m0));
            line_num = line_num + 1;
            col = 1;
        } else if ch == '\r' && i + 1 < c.len() && c[i + 1] == '\n' {
            col = col + 1;
        } else {
            let is_op = ch == '<' || ch == '>' || ch == '+' || ch == '-' || ch == ',' || ch == '.' || ch == '[' || ch == ']';
            if is_op {
                if comment_len > 0 {
                    proof { lemma_ops_view_push(cur@, BfOp::Comment(comment)); lemma_text_of_push(ops_view(cur@), Op::Comment(comment@)); lemma_plain_push(ops_view(cur@), Op::Comment(comment@)); lemma_tok_push(ft, ops_view(cur@), Op::Comment(comment@)); }
                    cur.push(BfOp::Comment(comment));
                    comment = String::new();
                    comment_len = 0;
                }
                assert(frames_tokens(stack@) + tokens_of(ops_view(cur@)) == flush_comment(t0, m0));
                let ghost cur1 = cur@;
                if ch == '[' {
                    let frame = StackFrame { open_bracket_pos: pos, ops: cur };
                    let ghost frame_ghost = frame;
                    let ghost cur_text = text_of(ops_view(frame.ops@));
                    stack.push(frame);
                    cur = Vec::new();
                    proof {
                        assert(stack@.drop_last() =~= old_stack);
                        assert(ops_view(cur@) =~= Seq::<Op>::empty());
                        assert forall|k: int| 0 <= k < stack@.len() implies plain_seq(ops_view(#[trigger] stack@[k].ops@)) by {
                            if k < old_stack.len() {
                                assert(stack@[k] == old_stack[k]);
                            }
                        }
                        lemma_opens_push(cs, i as int, ps0);
                        assert(open_positions(stack@) =~= ps0.push(pos));
                        lemma_frames_tokens_push(old_stack, frame_ghost);
                        lemma_tok_open(ft + tokens_of(ops_view(cur1)), tokens_of(ops_view(cur@)));
                        assert(frames_tokens(stack@) + tokens_of(ops_view(cur@)) == flush_comment(t0, m0).push(char_token(ch)));
                    }
                } else if ch == ']' {
                    if stack.len() == 0 {
                        assert(first_bad_close(cs, i as int));
                        return Err(ParseBfProgError::UnbalancedCloseBracket(UnbalancedCloseBracket { pos }));
                    }
                    let top = stack.pop().unwrap();
                    let ghost top_ghost = top;
                    let mut parent = top.ops;
                    proof {
                        lemma_ops_view_push(parent@, BfOp::Loop(cur));
                        lemma_text_of_push(ops_view(parent@), Op::Loop(ops_view(cur@)));
                        assert(plain_seq(ops_view(old_stack[old_stack.len() - 1].ops@)));
                        lemma_plain_push(ops_view(parent@), Op::Loop(ops_view(cur@)));
                        assert(old_stack.drop_last() =~= stack@);
                        assert(old_stack =~= stack@.push(top_ghost));
                        lemma_frames_tokens_push(stack@, top_ghost);
                        lemma_tok_close(frames_tokens(stack@), ops_view(parent@), ops_view(cur@));
                    }
                    let ghost cur_body = cur@;
                    parent.push(BfOp::Loop(cur));
                    cur = parent;
                    proof {
                        lemma_opens_other(cs, i as int, ps0, ps0.len() - 1);
                        assert(open_positions(stack@) =~= ps0.take(ps0.len() - 1));
                        assert(frames_tokens(stack@) + tokens_of(ops_view(cur@)) == flush_comment(t0, m0).push(char_token(ch)));
                    }
                } else {
                    let op = if ch == '<' {
                        BfOp::Left
                    } else if ch == '>' {
                        BfOp::Right
                    } else if ch == '+' {
                        BfOp::Inc
                    } else if ch == '-' {
                        BfOp::Dec
                    } else if ch == ',' {
                        BfOp::In
                    } else {
                        BfOp::Out
                    };
                    proof {
                        lemma_ops_view_push(cur@, op);
                        lemma_text_of_push(ops_view(cur@), op_view(op));
                        lemma_plain_push(ops_view(cur@), op_view(op));
                        lemma_tok_push(ft, ops_view(cur@), op_view(op));
                    }
                    cur.push(op);
                    proof {
                        lemma_opens_other(cs, i as int, ps0, ps0.len() as int);
                        assert(ps0.take(ps0.len() as int) =~= ps0);
                        assert(frames_tokens(stack@) + tokens_of(ops_view(cur@)) == flush_comment(t0, m0).push(char_token(ch)));
                    }
                }
            } else {
                string_push(&mut comment, ch);
                comment_len = comment_len + 1;
                proof {
                    lemma_opens_other(cs, i as int, ps0, ps0.len() as int);
                    assert(ps0.take(ps0.len() as int) =~= ps0);
                }
            }
            col = col + 1;
        }
        i = i + 1;
    }
    let ghost tf = frames_tokens(stack@) + tokens_of(ops_view(cur@));
    let ghost mf = comment@;
    if comment_len > 0 {
        proof { lemma_ops_view_push(cur@, BfOp::Comment(comment)); lemma_text_of_push(ops_view(cur@), Op::Comment(comment@)); lemma_plain_push(ops_view(cur@), Op::Comment(comment@)); lemma_tok_push(frames_tokens(stack@), ops_view(cur@), Op::Comment(comment@)); }
        cur.push(BfOp::Comment(comment));
    }
    assert(frames_tokens(stack@) + tokens_of(ops_view(cur@)) == flush_comment(tf, mf));
    if stack.len() > 0 {
        let ghost ps = open_positions(stack@);
        let top = stack.pop().unwrap();
        assert(open_pos_ok(cs, cs.len() as int, ps.len() - 1, ps[ps.len() - 1]));
        assert(ps[ps.len() - 1] == top.open_bracket_pos);
        return Err(ParseBfProgError::UnbalancedOpenBracket(UnbalancedOpenBracket { pos: top.open_bracket_pos }));
    }
    assert(frames_tokens(stack@) =~= Seq::<BfToken>::empty());
    assert(tokens_of(ops_view(cur@)) =~= bf_tokens(cs));
    Ok(cur)
}

}
verus! {

/// Deep copy of an operation.
pub fn clone_op(op: &BfOp) -> (r: BfOp)
    ensures op_view(r) == op_view(*op),
    decreases op,
{
    match op {
        BfOp::Left => BfOp::Left,
        BfOp::Right => BfOp::Right,
        BfOp::Inc => BfOp::Inc,
        BfOp::Dec => BfOp::Dec,
        BfOp::In => BfOp::In,
        BfOp::Out => BfOp::Out,
        BfOp::Loop(v) => BfOp::Loop(clone_ops(v)),
        BfOp::Clr => BfOp::Clr,
        BfOp::Shift(s) => BfOp::Shift(*s),
        BfOp::Add(a) => BfOp::Add(*a),
        BfOp::MoveAdd(s) => BfOp::MoveAdd(*s),
        BfOp::MoveAdd2(a, b) => BfOp::MoveAdd2(*a, *b),
        BfOp::Comment(m) => BfOp::Comment(m.clone()),
        BfOp::DebugMessage(m) => BfOp::DebugMessage(m.clone()),
        BfOp::Crash(m) => BfOp::Crash(m.clone()),
        BfOp::Breakpoint => BfOp::Breakpoint,
        BfOp::PrintRegisters => BfOp::PrintRegisters,
        BfOp::CheckScratchIsEmptyFromHere(m) => BfOp::CheckScratchIsEmptyFromHere(m.clone()),
    }
}

/// Deep copy of a program.
pub fn clone_ops(v: &Vec<BfOp>) -> (r: Vec<BfOp>)
    ensures ops_view(r@) == ops_view(v@),
    decreases v,
{
    let mut r: Vec<BfOp> = Vec::new();
    let mut i: usize = 0;
    while i < v.len()
        invariant
            0 <= i <= v@.len(),
            ops_view(r@) == ops_view(v@.take(i as int)),
        decreases v@.len() - i,
    {
        let o = clone_op(&v[i]);
        proof {
            lemma_ops_view_push(r@, o);
            lemma_ops_view_push(v@.take(i as int), v@[i as int]);
            assert(v@.take(i as int).push(v@[i as int]) =~= v@.take(i + 1));
        }
        r.push(o);
        i = i + 1;
    }
    assert(v@.take(i as int) =~= v@);
    r
}

struct ShiftAdd {
    shift: i16,
    add: u8,
}

spec fn sa_view(v: Seq<ShiftAdd>) -> Seq<(int, u8)> {
    v.map_values(|x: ShiftAdd| (x.shift as int, x.add))
}

fn encounter_add(list: &mut Vec<ShiftAdd>, x: u8, shift: i16)
    ensures sa_view(final(list)@) == sa_add(sa_view(old(list)@), shift as int, x),
{
    let ghost l = sa_view(list@);
    let mut i: usize = 0;
    while i < list.len()
        invariant
            0 <= i <= list@.len(),
            l == sa_view(list@),
            list@ == old(list)@,
            forall|j: int| 0 <= j < i ==> l[j].0 != shift,
        decreases list@.len() - i,
    {
        if list[i].shift == shift {
            let v = wrapping_add_u8(list[i].add, x);
            proof { lemma_sa_add_found(l, shift as int, x, i as int); }
            list.set(i, ShiftAdd { shift, add: v });
            assert(sa_view(list@) =~= l.update(i as int, (shift as int, wadd(l[i as int].1, x))));
            return;
        }
        i = i + 1;
    }
    proof { lemma_sa_add_absent(l, shift as int, x); }
    list.push(ShiftAdd { shift, add: x });
    assert(sa_view(list@) =~= l.push((shift as int, x)));
}

fn lookup_shift(list: &Vec<ShiftAdd>, shift: i16) -> (r: Option<u8>)
    ensures r == sa_lookup(sa_view(list@), shift as int),
{
    let ghost l = sa_view(list@);
    let mut i: usize = 0;
    while i < list.len()
        invariant
            0 <= i <= list@.len(),
            l == sa_view(list@),
            forall|j: int| 0 <= j < i ==> l[j].0 != shift,
        decreases list@.len() - i,
    {
        if list[i].shift == shift {
            proof { lemma_sa_add_found(l, shift as int, 0, i as int); }
            return Some(list[i].add);
        }
        i = i + 1;
    }
    proof { lemma_sa_add_absent(l, shift as int, 0); }
    None
}

/// The nonzero offsets with addition 1, in list order.
fn get_unit_moves(list: &Vec<ShiftAdd>) -> (r: Vec<i16>)
    ensures r@.map_values(|x: i16| x as int) == unit_moves(sa_view(list@)),
{
    let mut r: Vec<i16> = Vec::new();
    let mut i: usize = 0;
    while i < list.len()
        invariant
            0 <= i <= list@.len(),
            r@.map_values(|x: i16| x as int) == unit_moves(sa_view(list@.take(i as int))),
        decreases list@.len() - i,
    {
        proof {
            assert(list@.take(i + 1) =~= list@.take(i as int).push(list@[i as int]));
            assert(sa_view(list@.take(i + 1)) =~= sa_view(list@.take(i as int)).push((list@[i as int].shift as int, list@[i as int].add)));
            lemma_unit_moves_push(sa_view(list@.take(i as int)), (list@[i as int].shift as int, list@[i as int].add));
        }
        if list[i].shift != 0 && list[i].add == 1 {
            let ghost before = r@;
            r.push(list[i].shift);
            assert(r@.map_values(|x: i16| x as int) =~= before.map_values(|x: i16| x as int).push(list@[i as int].shift as int));
        }
        assert(r@.map_values(|x: i16| x as int) =~= unit_moves(sa_view(list@.take(i + 1))));
        i = i + 1;
    }
    assert(list@.take(i as int) =~= list@);
    r
}

/// Reads a loop body as pointer moves and additions; `Some` when it is one and moves
/// the pointer back to where it started.
fn get_loop_as_shiftadds(ops: &Vec<BfOp>) -> (r: Result<Option<Vec<ShiftAdd>>, ()>)
    ensures
        match sa_fold(ops_view(ops@), SaFold::Acc(Seq::empty(), 0)) {
            SaFold::Acc(l, s) => if s == 0 { r is Ok && r->Ok_0 is Some && sa_view(r->Ok_0->Some_0@) == l } else { r == Ok::<Option<Vec<ShiftAdd>>, ()>(None) },
            SaFold::NotShiftAdd => r == Ok::<Option<Vec<ShiftAdd>>, ()>(None),
            SaFold::Overflow => r is Err,
        },
{
    let ghost s = ops_view(ops@);
    let ghost total = sa_fold(s, SaFold::Acc(Seq::empty(), 0));
    let mut shift_adds: Vec<ShiftAdd> = Vec::new();
    let mut cur_shift: i16 = 0;
    let mut i: usize = 0;
    assert(s.skip(0) =~= s);
    assert(sa_view(shift_adds@) =~= Seq::<(int, u8)>::empty());
    while i < ops.len()
        invariant
            0 <= i <= ops@.len(),
            s == ops_view(ops@),
            total == sa_fold(s, SaFold::Acc(Seq::empty(), 0)),
            total == sa_fold(s.skip(i as int), SaFold::Acc(sa_view(shift_adds@), cur_shift as int)),
        decreases ops@.len() - i,
    {
        let ghost st = SaFold::Acc(sa_view(shift_adds@), cur_shift as int);
        assert(s.skip(i as int)[0] == op_view(ops@[i as int]));
        assert(s.skip(i as int).drop_first() =~= s.skip(i + 1));
        let ghost next = sa_step(s[i as int], st);
        match &ops[i] {
            BfOp::Left => {
                if cur_shift == i16::MIN {
                    proof { lemma_sa_fold_stuck(s.skip(i + 1), next); }
                    return Err(());
                }
                cur_shift = cur_shift - 1;
            },
            BfOp::Right => {
                if cur_shift == i16::MAX {
                    proof { lemma_sa_fold_stuck(s.skip(i + 1), next); }
                    return Err(());
                }
                cur_shift = cur_shift + 1;
            },
            BfOp::Inc => {
                encounter_add(&mut shift_adds, 1, cur_shift);
            },
            BfOp::Dec => {
                encounter_add(&mut shift_adds, 255, cur_shift);
            },
            BfOp::Shift(v) => {
                let n = cur_shift as i32 + *v as i32;
                if n < i16::MIN as i32 || n > i16::MAX as i32 {
                    proof { lemma_sa_fold_stuck(s.skip(i + 1), next); }
                    return Err(());
                }
                cur_shift = n as i16;
            },
            BfOp::Add(v) => {
                encounter_add(&mut shift_adds, *v, cur_shift);
            },
            _ => {
                proof { lemma_sa_fold_stuck(s.skip(i + 1), next); }
                return Ok(None);
            },
        }
        i = i + 1;
    }
    assert(s.skip(i as int) =~= Seq::<Op>::empty());
    if cur_shift == 0 {
        Ok(Some(shift_adds))
    } else {
        Ok(None)
    }
}

fn flush_shift_into(cur_shift: &mut i16, result: &mut Vec<BfOp>, add: u8)
    ensures
        ({
            let b = crate::semantics::flush_shift(OptBuf { shift: *old(cur_shift) as int, add, out: ops_view(old(result)@) });
            b.shift == *final(cur_shift) && b.out == ops_view(final(result)@)
        }),
{
    let op = if *cur_shift == 1 {
        Some(BfOp::Right)
    } else if *cur_shift == -1 {
        Some(BfOp::Left)
    } else if *cur_shift != 0 {
        Some(BfOp::Shift(*cur_shift))
    } else {
        None
    };
    if let Some(op) = op {
        proof { lemma_ops_view_push(result@, op); }
        result.push(op);
    }
    *cur_shift = 0;
}

fn flush_add_into(cur_add: &mut u8, result: &mut Vec<BfOp>, shift: i16)
    ensures
        ({
            let b = crate::semantics::flush_add(OptBuf { shift: shift as int, add: *old(cur_add), out: ops_view(old(result)@) });
            b.add == *final(cur_add) && b.out == ops_view(final(result)@)
        }),
{
    let op = if *cur_add == 1 {
        Some(BfOp::Inc)
    } else if *cur_add == 255 {
        Some(BfOp::Dec)
    } else if *cur_add != 0 {
        Some(BfOp::Add(*cur_add))
    } else {
        None
    };
    if let Some(op) = op {
        proof { lemma_ops_view_push(result@, op); }
        result.push(op);
    }
    *cur_add = 0;
}

/// Merges runs of pointer moves and of additions, and turns clearing and
/// moving loops (`[-]`, `[->+<]`, `[->+>+<<]`) into single operations.
pub fn get_optimized_bf_ops(ops: &Vec<BfOp>) -> (r: Vec<BfOp>)
    requires optimize(ops_view(ops@)) is Some,
    ensures optimize(ops_view(ops@)) == Some(ops_view(r@)),
{
    match try_get_optimized_bf_ops(ops) {
        Some(r) => r,
        None => {
            assert(false);
            Vec::new()
        },
    }
}

/// The optimized program, or `None` where a run of pointer moves leaves the
/// range of `i16`.
pub fn try_get_optimized_bf_ops(ops: &Vec<BfOp>) -> (r: Option<Vec<BfOp>>)
    ensures
        match optimize(ops_view(ops@)) {
            Some(o) => r is Some && ops_view(r->Some_0@) == o,
            None => r is None,
        },
    decreases ops, 0nat,
{
    let ghost s = ops_view(ops@);
    let ghost init = OptBuf { shift: 0, add: 0, out: Seq::empty() };
    let ghost total = opt_fold(s, init);
    let mut result: Vec<BfOp> = Vec::new();
    let mut cur_shift: i16 = 0;
    let mut cur_add: u8 = 0;
    let mut i: usize = 0;
    assert(s.skip(0) =~= s);
    assert(ops_view(result@) =~= Seq::<Op>::empty());
    while i < ops.len()
        invariant
            0 <= i <= ops@.len(),
            s == ops_view(ops@),
            init == (OptBuf { shift: 0, add: 0, out: Seq::<Op>::empty() }),
            total == opt_fold(s, init),
            total == opt_fold(s.skip(i as int), OptBuf { shift: cur_shift as int, add: cur_add, out: ops_view(result@) }),
        decreases ops@.len() - i,
    {
        let ghost b = OptBuf { shift: cur_shift as int, add: cur_add, out: ops_view(result@) };
        assert(s.skip(i as int)[0] == op_view(ops@[i as int]));
        assert(s.skip(i as int).drop_first() =~= s.skip(i + 1));
        let ghost next = opt_step(s[i as int], b);
        match &ops[i] {
            BfOp::Left => {
                flush_add_into(&mut cur_add, &mut result, cur_shift);
                if cur_shift == i16::MIN {
                    assert(s[i as int] == Op::Left);
                    assert(next is None);
                    assert(opt_fold(s.skip(i as int), b) is None);
                    assert(total is None);
                    assert(optimize(s) is None);
                    return None;
                }
                cur_shift = cur_shift - 1;
            },
            BfOp::Right => {
                flush_add_into(&mut cur_add, &mut result, cur_shift);
                if cur_shift == i16::MAX {
                    assert(s[i as int] == Op::Right);
                    assert(next is None);
                    assert(opt_fold(s.skip(i as int), b) is None);
                    assert(total is None);
                    assert(optimize(s) is None);
                    return None;
                }
                cur_shift = cur_shift + 1;
            },
            BfOp::Shift(v) => {
                flush_add_into(&mut cur_add, &mut result, cur_shift);
                let n = cur_shift as i32 + *v as i32;
                if n < i16::MIN as i32 || n > i16::MAX as i32 {
                    return None;
                }
                cur_shift = n as i16;
            },
            BfOp::Inc => {
                flush_shift_into(&mut cur_shift, &mut result, cur_add);
                cur_add = wrapping_add_u8(cur_add, 1);
            },
            BfOp::Dec => {
                flush_shift_into(&mut cur_shift, &mut result, cur_add);
                cur_add = wrapping_add_u8(cur_add, 255);
            },
            BfOp::Add(v) => {
                flush_shift_into(&mut cur_shift, &mut result, cur_add);
                cur_add = wrapping_add_u8(cur_add, *v);
            },
            BfOp::Loop(body) => {
                flush_shift_into(&mut cur_shift, &mut result, cur_add);
                flush_add_into(&mut cur_add, &mut result, cur_shift);
                let op = match optimize_loop(body) {
                    Some(op) => op,
                    None => {
                        return None;
                    },
                };
                proof { lemma_ops_view_push(result@, op); }
                result.push(op);
            },
            other => {
                flush_shift_into(&mut cur_shift, &mut result, cur_add);
                flush_add_into(&mut cur_add, &mut result, cur_shift);
                let op = clone_op(other);
                proof { lemma_ops_view_push(result@, op); }
                result.push(op);
            },
        }
        i = i + 1;
    }
    assert(s.skip(i as int) =~= Seq::<Op>::empty());
    flush_shift_into(&mut cur_shift, &mut result, cur_add);
    flush_add_into(&mut cur_add, &mut result, cur_shift);
    Some(result)
}

/// The single operation that a loop with this body becomes.
fn optimize_loop(body: &Vec<BfOp>) -> (r: Option<BfOp>)
    ensures
        match loop_opt(ops_view(body@)) {
            Some(o) => r is Some && op_view(r->Some_0) == o,
            None => r is None,
        },
    decreases body, 1nat,
{
    let ghost bs = ops_view(body@);
    let sa = match get_loop_as_shiftadds(body) {
        Ok(sa) => sa,
        Err(()) => {
            return None;
        },
    };
    if let Some(shift_adds) = sa {
        if lookup_shift(&shift_adds, 0) == Some(255u8) {
            let moves = get_unit_moves(&shift_adds);
            proof {
                assert(moves@.len() == unit_moves(sa_view(shift_adds@)).len());
            }
            if shift_adds.len() == 1 {
                return Some(BfOp::Clr);
            } else if shift_adds.len() == 2 && moves.len() == 1 {
                assert(moves@[0] as int == unit_moves(sa_view(shift_adds@))[0]);
                return Some(BfOp::MoveAdd(moves[0]));
            } else if shift_adds.len() == 3 && moves.len() == 2 {
                assert(moves@[0] as int == unit_moves(sa_view(shift_adds@))[0]);
                assert(moves@[1] as int == unit_moves(sa_view(shift_adds@))[1]);
                return Some(BfOp::MoveAdd2(moves[0], moves[1]));
            }
        }
    }
    match try_get_optimized_bf_ops(body) {
        Some(o) => Some(BfOp::Loop(o)),
        None => None,
    }
}

}
verus! {

// ---------------------------------------------------------------------------
// Writing Brainfuck programs as text.
// ---------------------------------------------------------------------------

/// How many instructions ran, in a loop and in the loops nested in it: one
/// entry per loop of the program, in the order the loops appear.
#[derive(Debug)]
pub struct LoopCount {
    pub self_instrs_executed: u64,
    pub tot_instrs_executed: u64,
    pub num_times_loop_run: u64,
    pub children_counts: Vec<LoopCount>,
    pub next_loop: usize,
}

impl LoopCount {
    pub fn new() -> (r: LoopCount)
        ensures
            r.self_instrs_executed == 0,
            r.tot_instrs_executed == 0,
            r.num_times_loop_run == 0,
            r.children_counts@.len() == 0,
            r.next_loop == 0,
    {
        LoopCount {
            self_instrs_executed: 0,
            tot_instrs_executed: 0,
            num_times_loop_run: 0,
            children_counts: Vec::new(),
            next_loop: 0,
        }
    }

    /// Instructions run in the loop itself, not in loops nested in it.
    pub fn get_self_instrs_executed(&self) -> (r: u64)
        ensures r == self.self_instrs_executed,
    {
        self.self_instrs_executed
    }

    /// Instructions run in the loop, nested loops included.
    pub fn get_instrs_executed(&self) -> (r: u64)
        ensures r == self.tot_instrs_executed,
    {
        self.tot_instrs_executed
    }
}

/// Model of a `LoopCount`.
pub struct LoopCountView {
    pub self_instrs: u64,
    pub tot_instrs: u64,
    pub runs: u64,
    pub children: Seq<LoopCountView>,
    pub next: int,
}

pub open spec fn lc_view(c: LoopCount) -> LoopCountView
    decreases c,
{
    proof {
        broadcast use vstd::std_specs::vec::axiom_vec_decreases_to_view;
    }
    LoopCountView {
        self_instrs: c.self_instrs_executed,
        tot_instrs: c.tot_instrs_executed,
        runs: c.num_times_loop_run,
        children: Seq::new(c.children_counts@.len(), |i: int|
            if 0 <= i < c.children_counts@.len() { lc_view(c.children_counts@[i]) } else { fresh_count() }),
        next: c.next_loop as int,
    }
}

/// A count with nothing counted.
pub open spec fn fresh_count() -> LoopCountView {
    LoopCountView { self_instrs: 0, tot_instrs: 0, runs: 0, children: Seq::empty(), next: 0 }
}

/// Addition and subtraction of counters, wrapping at 2^64.
pub open spec fn wadd64(a: u64, b: u64) -> u64 {
    ((a + b) % 0x1_0000_0000_0000_0000) as u64
}

pub open spec fn wsub64(a: u64, b: u64) -> u64 {
    ((a - b + 0x1_0000_0000_0000_0000) % 0x1_0000_0000_0000_0000) as u64
}

/// Whether running the operation counts as an executed instruction (the
/// comments and the debugging aids that print nothing of the run do not).
pub open spec fn counted(op: Op) -> bool {
    !(op is Comment || op is Breakpoint || op is DebugMessage || op is CheckScratchIsEmptyFromHere || op is PrintRegisters)
}

/// The counts after running `ops` from `m`: each counted instruction adds one
/// to the count of the innermost loop it runs in (its own and its total); the
/// `next` loop of a count gets the counts of the loop op that runs there.
pub open spec fn prof_seq(ops: Seq<Op>, m: Machine, t: Option<nat>, fuel: nat, c: LoopCountView) -> LoopCountView
    decreases fuel, ops, 0nat,
{
    if ops.len() == 0 {
        c
    } else {
        let (m1, e) = run_one(ops[0], m, t, fuel);
        let c1 = prof_one(ops[0], m, t, fuel, c);
        if e is Some {
            c1
        } else {
            prof_seq(ops.drop_first(), m1, t, fuel, c1)
        }
    }
}

/// The counts after running one operation: a loop gets the count at `next`
/// (a fresh one if there is none yet), which then moves on; the loop's
/// instructions are added to the total where the loop ends without error.
pub open spec fn prof_one(op: Op, m: Machine, t: Option<nat>, fuel: nat, c: LoopCountView) -> LoopCountView
    decreases fuel, op, 0nat,
{
    let c0 = if counted(op) {
        LoopCountView { self_instrs: wadd64(c.self_instrs, 1), tot_instrs: wadd64(c.tot_instrs, 1), ..c }
    } else {
        c
    };
    match op {
        Op::Loop(body) => {
            let c1 = if c0.next >= c0.children.len() {
                LoopCountView { children: c0.children.push(fresh_count()), ..c0 }
            } else {
                c0
            };
            let k = c1.children[c1.next];
            let k2 = prof_loop(body, m, t, fuel, k);
            let c2 = LoopCountView { children: c1.children.update(c1.next, k2), next: c1.next + 1, ..c1 };
            if run_loop(body, m, t, fuel).1 is Some {
                c2
            } else {
                LoopCountView { tot_instrs: wadd64(c2.tot_instrs, wsub64(k2.tot_instrs, k.tot_instrs)), ..c2 }
            }
        },
        _ => c0,
    }
}

/// The count of a loop after it ran: each round counts one run and starts
/// again at its first nested loop.
pub open spec fn prof_loop(body: Seq<Op>, m: Machine, t: Option<nat>, fuel: nat, k: LoopCountView) -> LoopCountView
    decreases fuel, body, 1nat,
{
    if m.cells[m.ptr] == 0 {
        k
    } else if fuel == 0 {
        k
    } else {
        let k1 = LoopCountView { runs: wadd64(k.runs, 1), next: 0, ..k };
        let (m1, e) = run_seq(body, m, t, (fuel - 1) as nat);
        let k2 = prof_seq(body, m, t, (fuel - 1) as nat, k1);
        if e is Some {
            k2
        } else {
            prof_loop(body, m1, t, (fuel - 1) as nat, k2)
        }
    }
}

fn wrapping_add_u64(a: u64, b: u64) -> (r: u64)
    ensures r == wadd64(a, b),
{
    if a > u64::MAX - b {
        b - (u64::MAX - a) - 1
    } else {
        a + b
    }
}

fn wrapping_sub_u64(a: u64, b: u64) -> (r: u64)
    ensures r == wsub64(a, b),
{
    if a >= b {
        a - b
    } else {
        u64::MAX - (b - a) + 1
    }
}

/// How `ops2str` writes a program.
pub struct BfFormatOptions<'a> {
    /// Write optimized operations by name (`Clr`, `Shift(3)`, ...) rather than as Brainfuck.
    pub print_optimizations: bool,
    /// Write nothing but Brainfuck operators.
    pub clean_output: bool,
    /// Put loop bodies on lines of their own, indented by nesting depth.
    pub indented: bool,
    /// Write loops and comments only.
    pub only_loops_and_comments: bool,
    /// Write after each `[` how many instructions that loop ran.
    pub loop_count: Option<&'a LoopCount>,
}

impl<'a> BfFormatOptions<'a> {
    /// Plain Brainfuck.
    pub fn clean() -> (r: BfFormatOptions<'static>)
        ensures
            !r.print_optimizations,
            r.clean_output,
            !r.indented,
            !r.only_loops_and_comments,
            r.loop_count is None,
    {
        BfFormatOptions {
            print_optimizations: false,
            clean_output: true,
            indented: false,
            only_loops_and_comments: false,
            loop_count: None,
        }
    }

    /// Brainfuck with its comments and debugging marks.
    pub fn clean_with_comments() -> (r: BfFormatOptions<'static>)
        ensures
            !r.print_optimizations,
            !r.clean_output,
            !r.indented,
            !r.only_loops_and_comments,
            r.loop_count is None,
    {
        BfFormatOptions {
            print_optimizations: false,
            clean_output: false,
            indented: false,
            only_loops_and_comments: false,
            loop_count: None,
        }
    }

    /// Optimized operations by name.
    pub fn with_opts() -> (r: BfFormatOptions<'static>)
        ensures
            r.print_optimizations,
            !r.clean_output,
            !r.indented,
            !r.only_loops_and_comments,
            r.loop_count is None,
    {
        BfFormatOptions {
            print_optimizations: true,
            clean_output: false,
            indented: false,
            only_loops_and_comments: false,
            loop_count: None,
        }
    }

    /// The loop structure with instruction counts, indented.
    pub fn perf_clean(loop_count: &'a LoopCount) -> (r: BfFormatOptions<'a>)
        ensures
            !r.print_optimizations,
            !r.clean_output,
            r.indented,
            r.only_loops_and_comments,
            r.loop_count == Some(loop_count),
    {
        BfFormatOptions {
            print_optimizations: false,
            clean_output: false,
            indented: true,
            only_loops_and_comments: true,
            loop_count: Some(loop_count),
        }
    }

    /// Everything, optimized operations by name, with instruction counts, indented.
    pub fn perf_verbose(loop_count: &'a LoopCount) -> (r: BfFormatOptions<'a>)
        ensures
            r.print_optimizations,
            !r.clean_output,
            r.indented,
            !r.only_loops_and_comments,
            r.loop_count == Some(loop_count),
    {
        BfFormatOptions {
            print_optimizations: true,
            clean_output: false,
            indented: true,
            only_loops_and_comments: false,
            loop_count: Some(loop_count),
        }
    }

    fn should_print_optimizations(&self) -> (r: bool)
        ensures r == (self.print_optimizations && !self.clean_output),
    {
        self.print_optimizations && !self.clean_output
    }
}

}
verus! {

pub open spec fn digit_char(d: int) -> char {
    if d <= 0 { '0' } else if d == 1 { '1' } else if d == 2 { '2' } else if d == 3 { '3' } else if d == 4 { '4' }
    else if d == 5 { '5' } else if d == 6 { '6' } else if d == 7 { '7' } else if d == 8 { '8' } else { '9' }
}

/// The decimal digits of `n`.
pub open spec fn decimal_text(n: nat) -> Seq<char>
    decreases n,
{
    if n < 10 {
        seq![digit_char(n as int)]
    } else {
        decimal_text(n / 10).push(digit_char((n % 10) as int))
    }
}

/// `x` in decimal, with a minus sign if it is negative.
pub open spec fn int_text(x: int) -> Seq<char> {
    if x < 0 {
        seq!['-'] + decimal_text((-x) as nat)
    } else {
        decimal_text(x as nat)
    }
}

/// `n` in decimal, with a comma between groups of three digits (`1,234,567`).
pub open spec fn grouped_text(n: nat) -> Seq<char>
    decreases n,
{
    if n < 1000 {
        decimal_text(n)
    } else {
        grouped_text(n / 1000) + seq![',', digit_char(((n % 1000) / 100) as int), digit_char(((n % 100) / 10) as int), digit_char((n % 10) as int)]
    }
}

pub open spec fn run_of(c: char, n: int) -> Seq<char> {
    Seq::new(n as nat, |i: int| c)
}

/// Pointer moves: `<` for each step left, `>` for each step right.
pub open spec fn shift_text(s: int) -> Seq<char> {
    if s < 0 { run_of('<', -s) } else { run_of('>', s) }
}

/// The options as they matter to the text: clean, optimizations by name, loops only.
pub struct Fmt {
    pub clean: bool,
    pub opts: bool,
    pub only: bool,
}

pub open spec fn fmt_of(o: BfFormatOptions) -> Fmt {
    Fmt {
        clean: o.clean_output,
        opts: o.print_optimizations && !o.clean_output,
        only: o.only_loops_and_comments,
    }
}

/// The number of loops in `ops` (not counting nested ones).
pub open spec fn loops_in(ops: Seq<Op>) -> int
    decreases ops.len(),
{
    if ops.len() == 0 {
        0
    } else {
        loops_in(ops.drop_last()) + if ops.last() is Loop { 1int } else { 0int }
    }
}

/// How deeply loops nest in `ops`.
pub open spec fn nesting(ops: Seq<Op>) -> int
    decreases ops, 0nat,
{
    if ops.len() == 0 {
        0
    } else {
        let a = nesting(ops.drop_last());
        let b = nesting_op(ops.last());
        if a >= b { a } else { b }
    }
}

pub open spec fn nesting_op(op: Op) -> int
    decreases op, 1nat,
{
    match op {
        Op::Loop(body) => 1 + nesting(body),
        _ => 0,
    }
}

/// The count written after the `[` of the `i`-th loop of a sequence.
pub open spec fn count_text(lc: Option<&LoopCount>, i: int) -> Seq<char> {
    match lc {
        Some(l) => if 0 <= i < l.children_counts@.len() {
            grouped_text(l.children_counts@[i].tot_instrs_executed as nat)
        } else {
            seq!['0']
        },
        None => Seq::empty(),
    }
}

pub open spec fn child_count(lc: Option<&LoopCount>, i: int) -> Option<&LoopCount> {
    match lc {
        Some(l) => if 0 <= i < l.children_counts@.len() { Some(&l.children_counts@[i]) } else { None },
        None => None,
    }
}

/// The text of a sequence of operations, with indentation `ind` and loop counts `lc`.
pub open spec fn fmt_seq(ops: Seq<Op>, f: Fmt, ind: Option<int>, lc: Option<&LoopCount>) -> Seq<char>
    decreases ops, 0nat,
{
    if ops.len() == 0 {
        Seq::empty()
    } else {
        fmt_seq(ops.drop_last(), f, ind, lc) + fmt_op(ops.last(), f, ind, lc, loops_in(ops.drop_last()))
    }
}

/// After a `[`: a new line indented one deeper, where indenting.
pub open spec fn open_text(ind: Option<int>) -> Seq<char> {
    match ind {
        Some(l) => seq!['\n'] + run_of(' ', l + 1),
        None => Seq::empty(),
    }
}

/// Before a `]`: a new line at the loop's own indentation, where indenting.
pub open spec fn close_text(ind: Option<int>) -> Seq<char> {
    match ind {
        Some(l) => seq!['\n'] + run_of(' ', l),
        None => Seq::empty(),
    }
}

pub open spec fn inner_ind(ind: Option<int>) -> Option<int> {
    match ind {
        Some(l) => Some(l + 1),
        None => None,
    }
}

/// A Brainfuck operator, unless only loops and comments are written.
pub open spec fn plain(f: Fmt, c: Seq<char>) -> Seq<char> {
    if f.only { Seq::empty() } else { c }
}

/// An optimized operation: by name, or as the Brainfuck it stands for.
pub open spec fn optimized(f: Fmt, name: Seq<char>, bf: Seq<char>) -> Seq<char> {
    if f.only { Seq::empty() } else if f.opts { name } else { bf }
}

/// A debugging operation: nothing in clean text, by name, or as its mark.
pub open spec fn marked(f: Fmt, name: Seq<char>, mark: Seq<char>) -> Seq<char> {
    if f.clean { Seq::empty() } else if f.opts { name } else { mark }
}

pub open spec fn named(name: Seq<char>, arg: Seq<char>) -> Seq<char> {
    name + seq!['('] + arg + seq![')']
}

/// The text of the operation `op`, the `i`-th loop of its sequence if it is a loop.
pub open spec fn fmt_op(op: Op, f: Fmt, ind: Option<int>, lc: Option<&LoopCount>, i: int) -> Seq<char>
    decreases op, 1nat,
{
    match op {
        Op::Left => plain(f, seq!['<']),
        Op::Right => plain(f, seq!['>']),
        Op::Inc => plain(f, seq!['+']),
        Op::Dec => plain(f, seq!['-']),
        Op::In => plain(f, seq![',']),
        Op::Out => plain(f, seq!['.']),
        Op::Loop(body) => seq!['['] + count_text(lc, i) + open_text(ind)
            + fmt_seq(body, f, inner_ind(ind), child_count(lc, i)) + close_text(ind) + seq![']'],
        Op::Clr => optimized(f, "Clr"@, "[-]"@),
        Op::Shift(s) => optimized(f, named("Shift"@, int_text(s)), shift_text(s)),
        Op::Add(v) => optimized(f, named("Add"@, int_text(v as int)),
            if v <= 128 { run_of('+', v as int) } else { run_of('-', 256 - v) }),
        Op::MoveAdd(s) => optimized(f, named("MoveAdd"@, int_text(s)),
            seq!['[', '-'] + shift_text(s) + seq!['+'] + shift_text(-s) + seq![']']),
        Op::MoveAdd2(a, b) => optimized(f, named("MoveAdd2"@, int_text(a) + seq![',', ' '] + int_text(b)),
            seq!['[', '-'] + shift_text(a) + seq!['+'] + shift_text(b - a) + seq!['+'] + shift_text(-b) + seq![']']),
        Op::Comment(m) => marked(f, named("Comment"@, m), m),
        Op::DebugMessage(m) => marked(f, named("DebugMessage"@, m), seq!['#']),
        Op::Crash(m) => marked(f, named("Crash"@, m), seq!['!']),
        Op::Breakpoint => marked(f, "Breakpoint"@, seq!['$']),
        Op::PrintRegisters => marked(f, "PrintRegisters"@, Seq::empty()),
        Op::CheckScratchIsEmptyFromHere(m) => marked(f, named("CheckScratchIsEmptyFromHere"@, m), seq!['&']),
    }
}

/// The text can be written without an arithmetic overflow: when optimized
/// operations are written as Brainfuck, their shifts can be negated and told apart.
pub open spec fn fmt_ok_seq(ops: Seq<Op>, f: Fmt) -> bool
    decreases ops, 0nat,
{
    if ops.len() == 0 {
        true
    } else {
        fmt_ok_seq(ops.drop_last(), f) && fmt_ok_op(ops.last(), f)
    }
}

pub open spec fn fmt_ok_op(op: Op, f: Fmt) -> bool
    decreases op, 1nat,
{
    match op {
        Op::Loop(body) => fmt_ok_seq(body, f),
        Op::Shift(s) => f.only || f.opts || s > i16::MIN,
        Op::MoveAdd(s) => f.only || f.opts || s > i16::MIN,
        Op::MoveAdd2(a, b) => f.only || f.opts || (a > i16::MIN && b > i16::MIN && i16::MIN < b - a <= i16::MAX),
        _ => true,
    }
}

}
verus! {

pub(crate) fn push_str(result: &mut String, s: &str)
    ensures final(result)@ == old(result)@ + s@,
{
    let cs = str_chars(s);
    let mut i: usize = 0;
    while i < cs.len()
        invariant
            0 <= i <= cs@.len(),
            result@ == old(result)@ + cs@.take(i as int),
        decreases cs@.len() - i,
    {
        string_push(result, cs[i]);
        assert(cs@.take(i + 1) =~= cs@.take(i as int).push(cs@[i as int]));
        i = i + 1;
    }
    assert(cs@.take(i as int) =~= s@);
}

fn push_run(result: &mut String, c: char, n: usize)
    ensures final(result)@ == old(result)@ + run_of(c, n as int),
{
    let mut i: usize = 0;
    while i < n
        invariant
            0 <= i <= n,
            result@ == old(result)@ + run_of(c, i as int),
        decreases n - i,
    {
        string_push(result, c);
        assert(run_of(c, i as int).push(c) =~= run_of(c, i + 1));
        i = i + 1;
    }
}

fn push_shift(result: &mut String, s: i16)
    requires s > i16::MIN,
    ensures final(result)@ == old(result)@ + shift_text(s as int),
{
    if s < 0 {
        push_run(result, '<', (0 - s) as usize);
    } else {
        push_run(result, '>', s as usize);
    }
}

fn digit(d: u64) -> (r: char)
    requires d < 10,
    ensures r == digit_char(d as int),
{
    if d == 0 { '0' } else if d == 1 { '1' } else if d == 2 { '2' } else if d == 3 { '3' } else if d == 4 { '4' }
    else if d == 5 { '5' } else if d == 6 { '6' } else if d == 7 { '7' } else if d == 8 { '8' } else { '9' }
}

pub(crate) fn push_decimal_text(result: &mut String, n: u64)
    ensures final(result)@ == old(result)@ + decimal_text(n as nat),
    decreases n,
{
    if n >= 10 {
        push_decimal_text(result, n / 10);
    }
    string_push(result, digit(n % 10));
    assert(final(result)@ =~= old(result)@ + decimal_text(n as nat));
}

pub(crate) fn push_int(result: &mut String, x: i32)
    ensures final(result)@ == old(result)@ + int_text(x as int),
{
    if x < 0 {
        string_push(result, '-');
        push_decimal_text(result, (0 - (x as i64)) as u64);
        assert(final(result)@ =~= old(result)@ + int_text(x as int));
    } else {
        push_decimal_text(result, x as u64);
    }
}

/// Formats `n` with `num_format`'s English locale (`Locale::en`): its decimal
/// digits, with a comma between groups of three counted from the right.
#[verifier::external_body]
fn format_count(n: u64) -> (r: String)
    ensures r@ == grouped_text(n as nat),
{
    n.to_formatted_string(&Locale::en)
}

pub open spec fn ind_view(ind: Option<usize>) -> Option<int> {
    match ind {
        Some(l) => Some(l as int),
        None => None,
    }
}

proof fn lemma_take_last<A>(s: Seq<A>, i: int)
    requires 0 <= i < s.len(),
    ensures
        s.take(i + 1).drop_last() == s.take(i),
        s.take(i + 1).last() == s[i],
{
    assert(s.take(i + 1).drop_last() =~= s.take(i));
}

proof fn lemma_fmt_ok_index(ops: Seq<Op>, f: Fmt, i: int)
    requires fmt_ok_seq(ops, f), 0 <= i < ops.len(),
    ensures fmt_ok_op(ops[i], f),
    decreases ops.len(),
{
    if i < ops.len() - 1 {
        lemma_fmt_ok_index(ops.drop_last(), f, i);
    }
}

proof fn lemma_nesting_index(ops: Seq<Op>, i: int)
    requires 0 <= i < ops.len(),
    ensures 0 <= nesting_op(ops[i]) <= nesting(ops),
    decreases ops.len(),
{
    if i < ops.len() - 1 {
        lemma_nesting_index(ops.drop_last(), i);
    }
    lemma_nesting_nonneg(ops[i]);
}

proof fn lemma_nesting_nonneg(op: Op)
    ensures nesting_op(op) >= 0,
    decreases op,
{
    match op {
        Op::Loop(body) => { lemma_nesting_seq_nonneg(body); },
        _ => {},
    }
}

proof fn lemma_nesting_seq_nonneg(ops: Seq<Op>)
    ensures nesting(ops) >= 0,
    decreases ops.len(),
{
    if ops.len() > 0 {
        lemma_nesting_seq_nonneg(ops.drop_last());
    }
}

}
verus! {

fn push_named(result: &mut String, name: &str, arg: &String)
    ensures final(result)@ == old(result)@ + named(name@, arg@),
{
    push_str(result, name);
    string_push(result, '(');
    push_str(result, arg.as_str());
    string_push(result, ')');
    assert(final(result)@ =~= old(result)@ + named(name@, arg@));
}

fn push_named_int(result: &mut String, name: &str, x: i32)
    ensures final(result)@ == old(result)@ + named(name@, int_text(x as int)),
{
    push_str(result, name);
    string_push(result, '(');
    push_int(result, x);
    string_push(result, ')');
    assert(final(result)@ =~= old(result)@ + named(name@, int_text(x as int)));
}

/// Appends the text of a loop, the `li`-th of its sequence.
fn fmt_loop_into(op: &BfOp, result: &mut String, f: &BfFormatOptions, ind: Option<usize>, lc: Option<&LoopCount>, li: usize)
    requires
        op is Loop,
        fmt_ok_op(op_view(*op), fmt_of(*f)),
        match ind {
            Some(l) => l + nesting_op(op_view(*op)) < usize::MAX,
            None => true,
        },
    ensures
        final(result)@ == old(result)@ + fmt_op(op_view(*op), fmt_of(*f), ind_view(ind), lc, li as int),
    decreases op, 0nat,
{
    if let BfOp::Loop(body) = op {
        proof {
            lemma_nesting_seq_nonneg(ops_view(body@));
        }
        let ghost r0 = result@;
        string_push(result, '[');
        push_count(result, lc, li);
        push_open(result, ind);
        let ghost r2 = result@;
        let child: Option<&LoopCount> = match lc {
            Some(l) => if li < l.children_counts.len() { Some(&l.children_counts[li]) } else { None },
            None => None,
        };
        let inner: Option<usize> = match ind {
            Some(level) => Some(level + 1),
            None => None,
        };
        assert(child == child_count(lc, li as int));
        assert(ind_view(inner) == inner_ind(ind_view(ind)));
        fmt_into(body, result, f, inner, child);
        let ghost r3 = result@;
        push_close(result, ind);
        string_push(result, ']');
        proof {
            let body_text = fmt_seq(ops_view(body@), fmt_of(*f), inner_ind(ind_view(ind)), child_count(lc, li as int));
            assert(r3 == r2 + body_text);
            assert(final(result)@ =~= old(result)@ + (seq!['['] + count_text(lc, li as int) + open_text(ind_view(ind))
                + body_text + close_text(ind_view(ind)) + seq![']']));
        }
    }
}

fn push_count(result: &mut String, lc: Option<&LoopCount>, li: usize)
    ensures final(result)@ == old(result)@ + count_text(lc, li as int),
{
    if let Some(l) = lc {
        if li < l.children_counts.len() {
            let t = format_count(l.children_counts[li].tot_instrs_executed);
            push_str(result, t.as_str());
        } else {
            string_push(result, '0');
        }
    }
    assert(final(result)@ =~= old(result)@ + count_text(lc, li as int));
}

fn push_open(result: &mut String, ind: Option<usize>)
    requires
        match ind {
            Some(l) => l + 1 < usize::MAX,
            None => true,
        },
    ensures final(result)@ == old(result)@ + open_text(ind_view(ind)),
{
    if let Some(level) = ind {
        string_push(result, '\n');
        push_run(result, ' ', level + 1);
    }
    assert(final(result)@ =~= old(result)@ + open_text(ind_view(ind)));
}

fn push_close(result: &mut String, ind: Option<usize>)
    ensures final(result)@ == old(result)@ + close_text(ind_view(ind)),
{
    if let Some(level) = ind {
        string_push(result, '\n');
        push_run(result, ' ', level);
    }
    assert(final(result)@ =~= old(result)@ + close_text(ind_view(ind)));
}

/// Appends the text of an optimized operation.
fn fmt_optimized_into(op: &BfOp, result: &mut String, f: &BfFormatOptions)
    requires
        op is Clr || op is Shift || op is Add || op is MoveAdd || op is MoveAdd2,
        fmt_ok_op(op_view(*op), fmt_of(*f)),
    ensures
        forall|ind: Option<int>, lc: Option<&LoopCount>, li: int|
            final(result)@ == old(result)@ + #[trigger] fmt_op(op_view(*op), fmt_of(*f), ind, lc, li),
{
    let only = f.only_loops_and_comments;
    let opts = f.should_print_optimizations();
    if only {
        return;
    }
    match op {
        BfOp::Clr => {
            if opts { push_str(result, "Clr"); } else { push_str(result, "[-]"); }
        },
        BfOp::Shift(shift) => {
            if opts { push_named_int(result, "Shift", *shift as i32); } else { push_shift(result, *shift); }
        },
        BfOp::Add(val) => {
            if opts {
                push_named_int(result, "Add", *val as i32);
            } else if *val <= 128 {
                push_run(result, '+', *val as usize);
            } else {
                push_run(result, '-', (256 - *val as u16) as usize);
            }
        },
        BfOp::MoveAdd(shift) => {
            if opts {
                push_named_int(result, "MoveAdd", *shift as i32);
            } else {
                string_push(result, '[');
                string_push(result, '-');
                push_shift(result, *shift);
                string_push(result, '+');
                push_shift(result, -*shift);
                string_push(result, ']');
            }
        },
        BfOp::MoveAdd2(shift1, shift2) => {
            if opts {
                push_str(result, "MoveAdd2");
                string_push(result, '(');
                push_int(result, *shift1 as i32);
                string_push(result, ',');
                string_push(result, ' ');
                push_int(result, *shift2 as i32);
                string_push(result, ')');
            } else {
                string_push(result, '[');
                string_push(result, '-');
                push_shift(result, *shift1);
                string_push(result, '+');
                push_shift(result, *shift2 - *shift1);
                string_push(result, '+');
                push_shift(result, -*shift2);
                string_push(result, ']');
            }
        },
        _ => {},
    }
    assert forall|ind: Option<int>, lc: Option<&LoopCount>, li: int|
        final(result)@ == old(result)@ + #[trigger] fmt_op(op_view(*op), fmt_of(*f), ind, lc, li) by {
        assert(final(result)@ =~= old(result)@ + fmt_op(op_view(*op), fmt_of(*f), ind, lc, li));
    }
}

/// Appends the text of a comment or a debugging operation.
fn fmt_marked_into(op: &BfOp, result: &mut String, f: &BfFormatOptions)
    requires
        op is Comment || op is DebugMessage || op is Crash || op is Breakpoint || op is PrintRegisters
            || op is CheckScratchIsEmptyFromHere,
    ensures
        forall|ind: Option<int>, lc: Option<&LoopCount>, li: int|
            final(result)@ == old(result)@ + #[trigger] fmt_op(op_view(*op), fmt_of(*f), ind, lc, li),
{
    let opts = f.should_print_optimizations();
    if f.clean_output {
        return;
    }
    match op {
        BfOp::Comment(msg) => {
            if opts { push_named(result, "Comment", msg); } else { push_str(result, msg.as_str()); }
        },
        BfOp::DebugMessage(msg) => {
            if opts { push_named(result, "DebugMessage", msg); } else { string_push(result, '#'); }
        },
        BfOp::Crash(msg) => {
            if opts { push_named(result, "Crash", msg); } else { string_push(result, '!'); }
        },
        BfOp::Breakpoint => {
            if opts { push_str(result, "Breakpoint"); } else { string_push(result, '$'); }
        },
        BfOp::PrintRegisters => {
            if opts { push_str(result, "PrintRegisters"); }
        },
        BfOp::CheckScratchIsEmptyFromHere(msg) => {
            if opts { push_named(result, "CheckScratchIsEmptyFromHere", msg); } else { string_push(result, '&'); }
        },
        _ => {},
    }
    assert forall|ind: Option<int>, lc: Option<&LoopCount>, li: int|
        final(result)@ == old(result)@ + #[trigger] fmt_op(op_view(*op), fmt_of(*f), ind, lc, li) by {
        assert(final(result)@ =~= old(result)@ + fmt_op(op_view(*op), fmt_of(*f), ind, lc, li));
    }
}

/// Appends the text of one operation; `li` is the number of loops before it in its sequence.
fn fmt_op_into(op: &BfOp, result: &mut String, f: &BfFormatOptions, ind: Option<usize>, lc: Option<&LoopCount>, li: usize)
    requires
        fmt_ok_op(op_view(*op), fmt_of(*f)),
        match ind {
            Some(l) => l + nesting_op(op_view(*op)) < usize::MAX,
            None => true,
        },
    ensures
        final(result)@ == old(result)@ + fmt_op(op_view(*op), fmt_of(*f), ind_view(ind), lc, li as int),
    decreases op, 1nat,
{
    let only = f.only_loops_and_comments;
    match op {
        BfOp::Left => { if !only { string_push(result, '<'); } },
        BfOp::Right => { if !only { string_push(result, '>'); } },
        BfOp::Inc => { if !only { string_push(result, '+'); } },
        BfOp::Dec => { if !only { string_push(result, '-'); } },
        BfOp::In => { if !only { string_push(result, ','); } },
        BfOp::Out => { if !only { string_push(result, '.'); } },
        BfOp::Loop(_) => {
            fmt_loop_into(op, result, f, ind, lc, li);
        },
        BfOp::Clr | BfOp::Shift(_) | BfOp::Add(_) | BfOp::MoveAdd(_) | BfOp::MoveAdd2(_, _) => {
            fmt_optimized_into(op, result, f);
        },
        _ => {
            fmt_marked_into(op, result, f);
        },
    }
    assert(final(result)@ =~= old(result)@ + fmt_op(op_view(*op), fmt_of(*f), ind_view(ind), lc, li as int));
}

/// Appends the text of a sequence of operations.
fn fmt_into(ops: &Vec<BfOp>, result: &mut String, f: &BfFormatOptions, ind: Option<usize>, lc: Option<&LoopCount>)
    requires
        fmt_ok_seq(ops_view(ops@), fmt_of(*f)),
        match ind {
            Some(l) => l + nesting(ops_view(ops@)) < usize::MAX,
            None => true,
        },
    ensures
        final(result)@ == old(result)@ + fmt_seq(ops_view(ops@), fmt_of(*f), ind_view(ind), lc),
    decreases ops, 2nat,
{
    let ghost v = ops_view(ops@);
    let mut i: usize = 0;
    let mut li: usize = 0;
    proof {
        assert(v.take(0) =~= Seq::<Op>::empty());
        assert(old(result)@ + fmt_seq(v.take(0), fmt_of(*f), ind_view(ind), lc) =~= old(result)@);
    }
    while i < ops.len()
        invariant
            0 <= i <= ops@.len(),
            v == ops_view(ops@),
            v.len() == ops@.len(),
            fmt_ok_seq(v, fmt_of(*f)),
            match ind {
                Some(l) => l + nesting(v) < usize::MAX,
                None => true,
            },
            li == loops_in(v.take(i as int)),
            li <= i,
            result@ == old(result)@ + fmt_seq(v.take(i as int), fmt_of(*f), ind_view(ind), lc),
        decreases ops@.len() - i,
    {
        proof {
            lemma_take_last(v, i as int);
            lemma_fmt_ok_index(v, fmt_of(*f), i as int);
            lemma_nesting_index(v, i as int);
        }
        fmt_op_into(&ops[i], result, f, ind, lc, li);
        if let BfOp::Loop(_) = &ops[i] {
            li = li + 1;
        }
        i = i + 1;
    }
    assert(v.take(i as int) =~= v);
}

/// The text of a program, written as the options ask.
pub fn ops2str(ops: &Vec<BfOp>, format_opts: BfFormatOptions) -> (r: String)
    requires
        fmt_ok_seq(ops_view(ops@), fmt_of(format_opts)),
        format_opts.indented ==> nesting(ops_view(ops@)) < usize::MAX,
    ensures
        r@ == fmt_seq(ops_view(ops@), fmt_of(format_opts), if format_opts.indented { Some(0int) } else { None }, format_opts.loop_count),
{
    let mut result = String::new();
    let cur_indent_level: Option<usize> = if format_opts.indented { Some(0) } else { None };
    fmt_into(ops, &mut result, &format_opts, cur_indent_level, format_opts.loop_count);
    assert(result@ =~= fmt_seq(ops_view(ops@), fmt_of(format_opts), if format_opts.indented { Some(0int) } else { None }, format_opts.loop_count));
    result
}

}
verus! {

/// The options of `clean_with_comments`, as they matter to the text.
pub open spec fn with_comments_fmt() -> Fmt {
    Fmt { clean: false, opts: false, only: false }
}

proof fn lemma_fmt_plain_seq(ops: Seq<Op>)
    requires plain_seq(ops),
    ensures fmt_seq(ops, with_comments_fmt(), None, None) == text_of(ops),
    decreases ops, 0nat,
{
    if ops.len() > 0 {
        lemma_fmt_plain_seq(ops.drop_last());
        lemma_fmt_plain_op(ops.last(), loops_in(ops.drop_last()));
    }
}

proof fn lemma_fmt_plain_op(op: Op, i: int)
    requires plain_op(op),
    ensures fmt_op(op, with_comments_fmt(), None, None, i) == op_text(op),
    decreases op, 1nat,
{
    if let Op::Loop(body) = op {
        lemma_fmt_plain_seq(body);
        assert(fmt_op(op, with_comments_fmt(), None, None, i) =~= op_text(op));
    }
}

/// Printing a parsed program with its comments (`ops2str` with
/// `clean_with_comments`) gives back the text it was parsed from, without its
/// line breaks.
pub proof fn lemma_print_parsed(s: Seq<char>, ops: Seq<Op>)
    requires
        plain_seq(ops),
        text_of(ops) == strip_lines(s, s.len() as int),
    ensures
        fmt_seq(ops, with_comments_fmt(), None, None) == strip_lines(s, s.len() as int),
{
    lemma_fmt_plain_seq(ops);
}

}
verus! {

use crate::cpu::TrackKind;

/// Every cell of every scratch track is zero (with `n` tracks, the cells of
/// track `t` are `t`, `t + n`, `t + 2n`, ...).
pub open spec fn scratch_is_empty(cells: Seq<u8>, tracks: Seq<(crate::cpu::TrackId, TrackKind)>) -> bool {
    forall|k: int, i: int|
        0 <= k < tracks.len() && #[trigger] tracks[k].1 is Scratch && 0 <= i < cells.len()
            && i >= tracks[k].1.track_num() && (i - tracks[k].1.track_num()) % (tracks.len() as int) == 0
            ==> #[trigger] cells[i] == 0
}

/// Whether the cells `start`, `start + step`, `start + 2 * step`, ... are all zero.
fn track_is_zero(cells: &Vec<u8>, start: usize, step: usize) -> (r: bool)
    requires step > 0,
    ensures
        r == forall|j: int| 0 <= j < cells@.len() && j >= start && (j - start) % (step as int) == 0
            ==> #[trigger] cells@[j] == 0,
{
    let mut i: usize = start;
    assert(0int % (step as int) == 0);
    while i < cells.len()
        invariant
            start <= i,
            step > 0,
            (i - start) % (step as int) == 0,
            forall|j: int| 0 <= j < i && j < cells@.len() && j >= start && (j - start) % (step as int) == 0
                ==> #[trigger] cells@[j] == 0,
        decreases cells@.len() - i,
    {
        if cells[i] != 0 {
            return false;
        }
        assert forall|j: int| 0 <= j < i + step && j < cells@.len() && j >= start && (j - start) % (step as int) == 0
            implies #[trigger] cells@[j] == 0 by {
            if i < j {
                assert(false) by (nonlinear_arith)
                    requires (j - start) % (step as int) == 0, (i - start) % (step as int) == 0,
                        0 < j - i < step, step > 0, j - start >= 0, i - start >= 0;
            }
        }
        if step > cells.len() - i {
            return true;
        }
        i = i + step;
        assert((i - start) % (step as int) == 0) by (nonlinear_arith)
            requires (i - step - start) % (step as int) == 0, step > 0, i - step - start >= 0;
    }
    true
}

impl BfState {
    /// Whether every cell of every scratch track is zero.
    pub fn check_scratch_is_empty(&self, cpu: &CpuConfig) -> (r: bool)
        requires cpu.wf(),
        ensures r == scratch_is_empty(self.cells@, cpu.tracks@),
    {
        let tracks = cpu.get_tracks();
        let num_tracks = tracks.len();
        let mut k: usize = 0;
        while k < num_tracks
            invariant
                0 <= k <= num_tracks,
                num_tracks == cpu.tracks@.len(),
                tracks == &cpu.tracks,
                cpu.wf(),
                forall|k2: int, i: int|
                    0 <= k2 < k && #[trigger] cpu.tracks@[k2].1 is Scratch && 0 <= i < self.cells@.len()
                        && i >= cpu.tracks@[k2].1.track_num() && (i - cpu.tracks@[k2].1.track_num()) % (num_tracks as int) == 0
                        ==> #[trigger] self.cells@[i] == 0,
            decreases num_tracks - k,
        {
            if let TrackKind::Scratch(_) = &tracks[k].1 {
                assert(cpu.tracks@[k as int].1.track_num() == k);
                if !track_is_zero(&self.cells, k, num_tracks) {
                    proof {
                        let j = choose|j: int| !(0 <= j < self.cells@.len() && j >= k && (j - k) % (num_tracks as int) == 0
                            ==> #[trigger] self.cells@[j] == 0);
                        assert(cpu.tracks@[k as int].1 is Scratch && self.cells@[j] != 0);
                    }
                    return false;
                }
            }
            k = k + 1;
        }
        true
    }
}

}
verus! {

/// The operation a character of Brainfuck text stands for (brackets and other
/// characters are read as comments here).
pub open spec fn char_op(c: char) -> Op {
    if c == '<' {
        Op::Left
    } else if c == '>' {
        Op::Right
    } else if c == '+' {
        Op::Inc
    } else if c == '-' {
        Op::Dec
    } else if c == ',' {
        Op::In
    } else if c == '.' {
        Op::Out
    } else {
        Op::Comment(seq![c])
    }
}

/// The operations of a text without brackets, one per character.
pub open spec fn text_ops(t: Seq<char>) -> Seq<Op> {
    t.map_values(|c: char| char_op(c))
}

proof fn lemma_text_ops_add(a: Seq<char>, b: Seq<char>)
    ensures text_ops(a + b) == text_ops(a) + text_ops(b),
{
    assert(text_ops(a + b) =~= text_ops(a) + text_ops(b));
}

/// Reading `k` steps of pointer moves in one direction moves the summary's
/// offset by `k` (or `-k`), as long as the offset stays in range.
proof fn lemma_sa_run(k: int, right: bool, rest: Seq<Op>, l: Seq<(int, u8)>, s: int)
    requires
        k >= 0,
        crate::semantics::in_i16(s),
        crate::semantics::in_i16(if right { s + k } else { s - k }),
    ensures
        sa_fold(text_ops(run_of(if right { '>' } else { '<' }, k)) + rest, SaFold::Acc(l, s))
            == sa_fold(rest, SaFold::Acc(l, if right { s + k } else { s - k })),
    decreases k,
{
    let c = if right { '>' } else { '<' };
    let ops = text_ops(run_of(c, k)) + rest;
    if k == 0 {
        assert(ops =~= rest);
    } else {
        let s1 = if right { s + 1 } else { s - 1 };
        assert(ops[0] == (if right { Op::Right } else { Op::Left }));
        assert(sa_step(ops[0], SaFold::Acc(l, s)) == SaFold::Acc(l, s1));
        assert(ops.drop_first() =~= text_ops(run_of(c, k - 1)) + rest);
        lemma_sa_run(k - 1, right, rest, l, s1);
    }
}

/// Reading the moves of `shift_text(n)` moves the summary's offset by `n`.
proof fn lemma_sa_shift(n: int, rest: Seq<Op>, l: Seq<(int, u8)>, s: int)
    requires
        crate::semantics::in_i16(s),
        crate::semantics::in_i16(s + n),
    ensures
        sa_fold(text_ops(shift_text(n)) + rest, SaFold::Acc(l, s)) == sa_fold(rest, SaFold::Acc(l, s + n)),
{
    if n < 0 {
        lemma_sa_run(-n, false, rest, l, s);
    } else {
        lemma_sa_run(n, true, rest, l, s);
    }
}

/// Writing a two-target move as Brainfuck and reading it back gives it again:
/// the text of `MoveAdd2(a, b)` is a loop whose body the optimizer turns into
/// `MoveAdd2(a, b)` (each Brainfuck-writing format).
#[verifier::spinoff_prover]
pub proof fn lemma_moveadd2_text_reads_back(a: int, b: int, f: Fmt, ind: Option<int>, lc: Option<&LoopCount>, i: int)
    requires
        !f.only,
        !f.opts,
        crate::semantics::in_i16(a),
        crate::semantics::in_i16(b),
        a != 0,
        b != 0,
        a != b,
    ensures
        ({
            let t = fmt_op(Op::MoveAdd2(a, b), f, ind, lc, i);
            &&& t.len() >= 2
            &&& t[0] == '['
            &&& t[t.len() - 1] == ']'
            &&& loop_opt(text_ops(t.subrange(1, t.len() - 1))) == Some(Op::MoveAdd2(a, b))
        }),
{
    let body = seq!['-'] + shift_text(a) + seq!['+'] + shift_text(b - a) + seq!['+'] + shift_text(-b);
    let t = fmt_op(Op::MoveAdd2(a, b), f, ind, lc, i);
    assert(t == seq!['['] + body + seq![']']);
    assert(t.subrange(1, t.len() - 1) =~= body);
    let ops = text_ops(body);
    lemma_text_ops_add(seq!['-'] + shift_text(a) + seq!['+'] + shift_text(b - a) + seq!['+'], shift_text(-b));
    lemma_text_ops_add(seq!['-'] + shift_text(a) + seq!['+'] + shift_text(b - a), seq!['+']);
    lemma_text_ops_add(seq!['-'] + shift_text(a) + seq!['+'], shift_text(b - a));
    lemma_text_ops_add(seq!['-'] + shift_text(a), seq!['+']);
    lemma_text_ops_add(seq!['-'], shift_text(a));
    let ta = text_ops(shift_text(a));
    let tba = text_ops(shift_text(b - a));
    let tb = text_ops(shift_text(-b));
    assert(text_ops(seq!['-']) =~= seq![Op::Dec]);
    assert(text_ops(seq!['+']) =~= seq![Op::Inc]);
    assert(ops =~= seq![Op::Dec] + (ta + (seq![Op::Inc] + (tba + (seq![Op::Inc] + tb)))));
    let e = Seq::<(int, u8)>::empty();
    let l1 = seq![(0int, 255u8)];
    let l2 = seq![(0int, 255u8), (a, 1u8)];
    let l3 = seq![(0int, 255u8), (a, 1u8), (b, 1u8)];
    reveal_with_fuel(sa_add, 4);
    assert(sa_add(e, 0, 255) =~= l1);
    assert(sa_add(l1, a, 1) =~= l2) by {
        assert(l1.drop_first() =~= e);
        assert(sa_add(l1, a, 1) == seq![l1[0]] + sa_add(l1.drop_first(), a, 1));
    }
    assert(sa_add(l2, b, 1) =~= l3) by {
        assert(l2.drop_first() =~= seq![(a, 1u8)]);
        assert(l2.drop_first().drop_first() =~= e);
        let la = seq![(a, 1u8)];
        assert(la.drop_first() =~= e);
        assert(sa_add(la, b, 1) == seq![la[0]] + sa_add(la.drop_first(), b, 1));
        assert(sa_add(l2, b, 1) == seq![l2[0]] + sa_add(l2.drop_first(), b, 1));
    }
    // Step by step through the body.
    let r0 = seq![Op::Dec] + (ta + (seq![Op::Inc] + (tba + (seq![Op::Inc] + tb))));
    assert(r0.drop_first() =~= ta + (seq![Op::Inc] + (tba + (seq![Op::Inc] + tb))));
    assert(sa_fold(r0, SaFold::Acc(e, 0)) == sa_fold(r0.drop_first(), SaFold::Acc(l1, 0)));
    lemma_sa_shift(a, seq![Op::Inc] + (tba + (seq![Op::Inc] + tb)), l1, 0);
    let r1 = seq![Op::Inc] + (tba + (seq![Op::Inc] + tb));
    assert(r1.drop_first() =~= tba + (seq![Op::Inc] + tb));
    assert(sa_fold(r1, SaFold::Acc(l1, a)) == sa_fold(r1.drop_first(), SaFold::Acc(l2, a)));
    lemma_sa_shift(b - a, seq![Op::Inc] + tb, l2, a);
    let r2 = seq![Op::Inc] + tb;
    assert(r2.drop_first() =~= tb);
    assert(sa_fold(r2, SaFold::Acc(l2, b)) == sa_fold(tb, SaFold::Acc(l3, b)));
    lemma_sa_shift(-b, Seq::empty(), l3, b);
    assert(tb + Seq::<Op>::empty() =~= tb);
    assert(sa_fold(Seq::<Op>::empty(), SaFold::Acc(l3, 0)) == SaFold::Acc(l3, 0));
    assert(sa_fold(ops, SaFold::Acc(e, 0)) == SaFold::Acc(l3, 0));
    reveal_with_fuel(sa_lookup, 4);
    reveal_with_fuel(unit_moves, 4);
    assert(l3.drop_first() =~= seq![(a, 1u8), (b, 1u8)]);
    assert(l3.drop_first().drop_first() =~= seq![(b, 1u8)]);
    assert(l3.drop_first().drop_first().drop_first() =~= e);
    assert(sa_lookup(l3, 0) == Some(255u8));
    assert(unit_moves(l3) =~= seq![a, b]);
}

/// Writing a one-target move as Brainfuck and reading it back gives it again:
/// the text of `MoveAdd(s)` is a loop whose body the optimizer turns into
/// `MoveAdd(s)` (each Brainfuck-writing format).
#[verifier::spinoff_prover]
pub proof fn lemma_moveadd_text_reads_back(a: int, f: Fmt, ind: Option<int>, lc: Option<&LoopCount>, i: int)
    requires
        !f.only,
        !f.opts,
        crate::semantics::in_i16(a),
        a != 0,
    ensures
        ({
            let t = fmt_op(Op::MoveAdd(a), f, ind, lc, i);
            &&& t.len() >= 2
            &&& t[0] == '['
            &&& t[t.len() - 1] == ']'
            &&& loop_opt(text_ops(t.subrange(1, t.len() - 1))) == Some(Op::MoveAdd(a))
        }),
{
    let body = seq!['-'] + shift_text(a) + seq!['+'] + shift_text(-a);
    let t = fmt_op(Op::MoveAdd(a), f, ind, lc, i);
    assert(t == seq!['['] + body + seq![']']);
    assert(t.subrange(1, t.len() - 1) =~= body);
    let ops = text_ops(body);
    lemma_text_ops_add(seq!['-'] + shift_text(a) + seq!['+'], shift_text(-a));
    lemma_text_ops_add(seq!['-'] + shift_text(a), seq!['+']);
    lemma_text_ops_add(seq!['-'], shift_text(a));
    let ta = text_ops(shift_text(a));
    let tb = text_ops(shift_text(-a));
    assert(text_ops(seq!['-']) =~= seq![Op::Dec]);
    assert(text_ops(seq!['+']) =~= seq![Op::Inc]);
    assert(ops =~= seq![Op::Dec] + (ta + (seq![Op::Inc] + tb)));
    let e = Seq::<(int, u8)>::empty();
    let l1 = seq![(0int, 255u8)];
    let l2 = seq![(0int, 255u8), (a, 1u8)];
    reveal_with_fuel(sa_add, 3);
    assert(sa_add(e, 0, 255) =~= l1);
    assert(sa_add(l1, a, 1) =~= l2) by {
        assert(l1.drop_first() =~= e);
        assert(sa_add(l1, a, 1) == seq![l1[0]] + sa_add(l1.drop_first(), a, 1));
    }
    let r0 = seq![Op::Dec] + (ta + (seq![Op::Inc] + tb));
    assert(r0.drop_first() =~= ta + (seq![Op::Inc] + tb));
    assert(sa_fold(r0, SaFold::Acc(e, 0)) == sa_fold(r0.drop_first(), SaFold::Acc(l1, 0)));
    lemma_sa_shift(a, seq![Op::Inc] + tb, l1, 0);
    let r1 = seq![Op::Inc] + tb;
    assert(r1.drop_first() =~= tb);
    assert(sa_fold(r1, SaFold::Acc(l1, a)) == sa_fold(tb, SaFold::Acc(l2, a)));
    lemma_sa_shift(-a, Seq::empty(), l2, a);
    assert(tb + Seq::<Op>::empty() =~= tb);
    assert(sa_fold(Seq::<Op>::empty(), SaFold::Acc(l2, 0)) == SaFold::Acc(l2, 0));
    assert(sa_fold(ops, SaFold::Acc(e, 0)) == SaFold::Acc(l2, 0));
    reveal_with_fuel(sa_lookup, 3);
    reveal_with_fuel(unit_moves, 3);
    assert(l2.drop_first() =~= seq![(a, 1u8)]);
    assert(l2.drop_first().drop_first() =~= e);
    assert(sa_lookup(l2, 0) == Some(255u8));
    assert(unit_moves(l2) =~= seq![a]);
}

/// The text of `Clr` is a loop whose body the optimizer turns into `Clr`.
#[verifier::spinoff_prover]
pub proof fn lemma_clr_text_reads_back(f: Fmt, ind: Option<int>, lc: Option<&LoopCount>, i: int)
    requires
        !f.only,
        !f.opts,
    ensures
        ({
            let t = fmt_op(Op::Clr, f, ind, lc, i);
            &&& t.len() >= 2
            &&& t[0] == '['
            &&& t[t.len() - 1] == ']'
            &&& loop_opt(text_ops(t.subrange(1, t.len() - 1))) == Some(Op::Clr)
        }),
{
    reveal_strlit("[-]");
    let t = fmt_op(Op::Clr, f, ind, lc, i);
    assert(t =~= seq!['[', '-', ']']);
    let body = t.subrange(1, t.len() - 1);
    assert(body =~= seq!['-']);
    let ops = text_ops(body);
    assert(ops =~= seq![Op::Dec]);
    let e = Seq::<(int, u8)>::empty();
    let l1 = seq![(0int, 255u8)];
    reveal_with_fuel(sa_add, 2);
    assert(sa_add(e, 0, 255) =~= l1);
    assert(ops.drop_first() =~= Seq::<Op>::empty());
    assert(ops[0] == Op::Dec);
    assert(sa_step(ops[0], SaFold::Acc(e, 0)) == SaFold::Acc(l1, 0));
    reveal_with_fuel(sa_fold, 2);
    assert(sa_fold(ops, SaFold::Acc(e, 0)) == SaFold::Acc(l1, 0));
    reveal_with_fuel(sa_lookup, 2);
    assert(sa_lookup(l1, 0) == Some(255u8));
}

/// Reading `k` increments (or, with `up` false, decrements) adds `k` (or
/// `255 * k`) to the optimizer's pending addition, wrapping.
#[verifier::spinoff_prover]
proof fn lemma_opt_adds(k: int, up: bool, a: u8, out: Seq<Op>)
    requires k >= 0,
    ensures
        opt_fold(text_ops(run_of(if up { '+' } else { '-' }, k)), OptBuf { shift: 0, add: a, out })
            == Some(OptBuf { shift: 0, add: ((a + (if up { k } else { 255 * k })) % 256) as u8, out }),
    decreases k,
{
    let c = if up { '+' } else { '-' };
    let ops = text_ops(run_of(c, k));
    if k == 0 {
        assert(ops =~= Seq::<Op>::empty());
        assert(((a + 0int) % 256) as u8 == a);
    } else {
        let b = OptBuf { shift: 0, add: a, out };
        assert(ops[0] == (if up { Op::Inc } else { Op::Dec }));
        assert(flush_shift(b) == b);
        let a1 = wadd(a, if up { 1u8 } else { 255u8 });
        assert(opt_step(ops[0], b) == Some(OptBuf { shift: 0, add: a1, out }));
        assert(ops.drop_first() =~= text_ops(run_of(c, k - 1)));
        lemma_opt_adds(k - 1, up, a1, out);
        let d: int = if up { 1 } else { 255 };
        assert(((a1 + d * (k - 1)) % 256) == ((a + d * k) % 256)) by (nonlinear_arith)
            requires a1 == (a + d) % 256, k >= 1;
    }
}

/// Reading `k` pointer moves in one direction moves the optimizer's pending
/// offset by `k` (or `-k`).
proof fn lemma_opt_moves(k: int, right: bool, s: int, out: Seq<Op>)
    requires
        k >= 0,
        crate::semantics::in_i16(s),
        crate::semantics::in_i16(if right { s + k } else { s - k }),
    ensures
        opt_fold(text_ops(run_of(if right { '>' } else { '<' }, k)), OptBuf { shift: s, add: 0, out })
            == Some(OptBuf { shift: if right { s + k } else { s - k }, add: 0, out }),
    decreases k,
{
    let c = if right { '>' } else { '<' };
    let ops = text_ops(run_of(c, k));
    if k == 0 {
        assert(ops =~= Seq::<Op>::empty());
    } else {
        let b = OptBuf { shift: s, add: 0, out };
        assert(ops[0] == (if right { Op::Right } else { Op::Left }));
        assert(flush_add(b) == b);
        let s1 = if right { s + 1 } else { s - 1 };
        assert(opt_step(ops[0], b) == Some(OptBuf { shift: s1, add: 0, out }));
        assert(ops.drop_first() =~= text_ops(run_of(c, k - 1)));
        lemma_opt_moves(k - 1, right, s1, out);
    }
}

/// Writing an addition as Brainfuck and optimizing the text gives it back: the
/// text of `Add(v)` (for `v` other than 0, 1 and 255, which are written and
/// read as nothing, `Inc` and `Dec`) optimizes to `Add(v)`.
#[verifier::spinoff_prover]
pub proof fn lemma_add_text_reads_back(v: u8, f: Fmt, ind: Option<int>, lc: Option<&LoopCount>, i: int)
    requires
        !f.only,
        !f.opts,
        v != 0,
        v != 1,
        v != 255,
    ensures
        optimize(text_ops(fmt_op(Op::Add(v), f, ind, lc, i))) == Some(seq![Op::Add(v)]),
{
    let t = fmt_op(Op::Add(v), f, ind, lc, i);
    let e = Seq::<Op>::empty();
    if v <= 128 {
        assert(t == run_of('+', v as int));
        lemma_opt_adds(v as int, true, 0, e);
        assert(((0 + v as int) % 256) as u8 == v);
    } else {
        assert(t == run_of('-', 256 - v));
        lemma_opt_adds(256 - v, false, 0, e);
        assert(((0 + 255 * (256 - v)) % 256) == v as int) by (nonlinear_arith)
            requires 128 < v < 256;
    }
    let b = OptBuf { shift: 0, add: v, out: e };
    assert(flush_shift(b) == b);
    assert(flush_all(b).out =~= seq![Op::Add(v)]);
}

/// Writing a pointer move as Brainfuck and optimizing the text gives it back:
/// the text of `Shift(s)` (for `s` other than 0, 1 and -1, which are written
/// and read as nothing, `Right` and `Left`) optimizes to `Shift(s)`.
#[verifier::spinoff_prover]
pub proof fn lemma_shift_text_reads_back(s: int, f: Fmt, ind: Option<int>, lc: Option<&LoopCount>, i: int)
    requires
        !f.only,
        !f.opts,
        crate::semantics::in_i16(s),
        s != 0,
        s != 1,
        s != -1,
    ensures
        optimize(text_ops(fmt_op(Op::Shift(s), f, ind, lc, i))) == Some(seq![Op::Shift(s)]),
{
    let t = fmt_op(Op::Shift(s), f, ind, lc, i);
    let e = Seq::<Op>::empty();
    assert(t == shift_text(s));
    if s < 0 {
        lemma_opt_moves(-s, false, 0, e);
    } else {
        lemma_opt_moves(s, true, 0, e);
    }
    let b = OptBuf { shift: s, add: 0, out: e };
    assert(flush_add(flush_shift(b)).out =~= seq![Op::Shift(s)]);
}

}
