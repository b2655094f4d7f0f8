//! Printing a binary register in decimal: its digits are divided out by ten,
//! least significant first, into a register of bytes, and printed from there.

use crate::cpu::{
    g_add_const, g_clr, g_clr_at, g_clr_register, g_goto, g_loop_while, g_op, g_op_at, pos_ok, reg_at, reg_ok,
    scratch_room, Cpu, CpuState, BinRegister, Pos, Register, ScratchTrack,
};
use crate::cpu_flow::{
    bne_count, bne_rest, g_add_bins, g_div_bins, g_foreach_pos, g_foreach_pos_rev, g_if_nonzero, g_shift_left, ine_else_in,
    ine_result, ine_then_in,
};
use crate::semantics::Op;
use vstd::prelude::*;

verus! {

/// The binary register of `size` cells at the start of the scratch track `st`.
pub open spec fn scratch_bin(st: ScratchTrack, size: int) -> BinRegister {
    BinRegister { offset: (st.left_limit() - st.offset) as isize, size: size as isize, track: st.track }
}

/// The register of `size` bytes at the start of the scratch track `st`.
pub open spec fn scratch_bytes(st: ScratchTrack, size: int) -> Register {
    Register { offset: (st.left_limit() - st.offset) as isize, size: size as isize, track: st.track }
}

/// Adds `val` to `out` if the bit `bit` is set, clearing the bit.
pub open spec fn g_digit_bit(fs: int, c: CpuState, bit: Pos, out: Pos, val: u8, st: ScratchTrack) -> CpuState {
    g_if_nonzero(fs, c, bit, st, |d: CpuState| g_add_const(fs, g_clr_at(fs, d, bit), out, val))
}

/// The division step of a round of the decimal printer: the digits so far
/// move one cell left, the new digit cell gets `'0'`, and the copy `xc` of the
/// value is divided by ten into the scratch registers `div` and `rem`.
#[verifier::opaque]
pub open spec fn g_decimal_div10(fs: int, c: CpuState, size: int, xc: BinRegister, out_store: Register, st1: ScratchTrack) -> CpuState {
    let out = reg_at(out_store, out_store.size - 1);
    let rem = scratch_bin(st1, size);
    let st2 = st1.spec_split(size);
    let div = scratch_bin(st2, size);
    let st3 = st2.spec_split(size);
    let ten = scratch_bin(st3, 4);
    let st4 = st3.spec_split(4);
    let c1 = g_add_const(fs, g_shift_left(fs, c, out_store, st1), out, 48);
    let c2 = g_op_at(fs, g_op_at(fs, c1, reg_at(ten.as_register_spec(), 2), Op::Inc), reg_at(ten.as_register_spec(), 0), Op::Inc);
    g_clr_register(fs, g_div_bins(fs, c2, xc.as_register_spec(), ten.as_register_spec(), div.as_register_spec(),
        rem.as_register_spec(), st4), ten.as_register_spec(), st4)
}

/// `div` replaces `xc`, and is cleared.
#[verifier::opaque]
pub open spec fn g_decimal_requotient(fs: int, c: CpuState, size: int, xc: BinRegister, st1: ScratchTrack) -> CpuState {
    let st2 = st1.spec_split(size);
    let div = scratch_bin(st2, size);
    let st3 = st2.spec_split(size);
    let c4 = g_foreach_pos(fs, c, div.as_register_spec(), st3, |d: CpuState| {
        let d1 = g_clr_at(fs, d, reg_at(xc.as_register_spec(), 0));
        crate::cpu::g_copy_auto(fs, d1, reg_at(div.as_register_spec(), 0), reg_at(xc.as_register_spec(), 0), st3.spec_split(3))
    });
    g_clr_register(fs, c4, div.as_register_spec(), st3)
}

/// The first half of a round of the decimal printer: the value in `xc` is
/// divided by ten, the quotient replacing it.
pub open spec fn g_decimal_divide(fs: int, c: CpuState, size: int, xc: BinRegister, out_store: Register, st1: ScratchTrack) -> CpuState {
    g_decimal_requotient(fs, g_decimal_div10(fs, c, size, xc, out_store, st1), size, xc, st1)
}

/// The digit step of a round: each of the four low bits of the remainder
/// `rem` that is set is cleared and adds its weight to the digit cell.
pub open spec fn g_digit_bits(fs: int, c: CpuState, size: int, out_store: Register, st1: ScratchTrack) -> CpuState {
    let out = reg_at(out_store, out_store.size - 1);
    let rem = scratch_bin(st1, size).as_register_spec();
    let st2 = st1.spec_split(size);
    let c1 = g_digit_bit(fs, c, reg_at(rem, size - 1), out, 1, st2);
    let c2 = g_digit_bit(fs, c1, reg_at(rem, size - 2), out, 2, st2);
    let c3 = g_digit_bit(fs, c2, reg_at(rem, size - 3), out, 4, st2);
    let c4 = g_digit_bit(fs, c3, reg_at(rem, size - 4), out, 8, st2);
    c4
}

/// The second half: the remainder's four low bits are added into the digit
/// cell, and the loop flag `cb` is cleared once `xc` is zero.
#[verifier::opaque]
pub open spec fn g_decimal_digit(fs: int, c: CpuState, size: int, xc: BinRegister, out_store: Register, cb: Pos,
    st1: ScratchTrack) -> CpuState {
    let c4 = g_digit_bits(fs, c, size, out_store, st1);
    let m = bne_count(fs, c4, xc.as_register_spec(), st1);
    let acc = st1.first();
    let rest = bne_rest(st1, size);
    let x = ine_then_in(fs, m, acc, rest);
    let y = g_op_at(fs, ine_else_in(fs, m, acc, rest, x), cb, Op::Dec);
    g_clr_at(fs, ine_result(fs, m, acc, rest, x, y), acc)
}

/// Prints the cell at `pos` as a character if it is not zero, clearing it.
pub open spec fn g_print_cell(fs: int, c: CpuState, pos: Pos, st: ScratchTrack) -> CpuState {
    g_if_nonzero(fs, c, pos, st, |d: CpuState| g_clr(g_op(g_goto(fs, d, pos), Op::Out)))
}

/// `print_binregister_in_decimal` on the register `x`, with `n` digit cells.
pub open spec fn g_print_decimal(fs: int, s: CpuState, x: BinRegister, n: int, st: ScratchTrack) -> CpuState {
    let cb = st.first();
    let st1 = st.spec_split(1);
    let xc = scratch_bin(st1, x.size as int);
    let st1b = st1.spec_split(x.size as int);
    let out_store = scratch_bytes(st1b, n);
    let st1c = st1b.spec_split(n);
    let s1 = g_add_bins(fs, g_op_at(fs, s, cb, Op::Inc), x.as_register_spec(), xc.as_register_spec(), st1b);
    let s2 = g_loop_while(fs, s1, cb, |c: CpuState|
        g_decimal_digit(fs, g_decimal_divide(fs, c, x.size as int, xc, out_store, st1c), x.size as int, xc, out_store, cb, st1c));
    let last = reg_at(out_store, n - 1);
    g_foreach_pos_rev(fs, s2, out_store, st1c, |c: CpuState| g_print_cell(fs, c, last, st1c.spec_split(1).spec_split(n - 1).spec_split(1)))
}

/// Room for the decimal printer of a register of `size` bits with `n` digit
/// cells on the scratch track `st`.
pub open spec fn decimal_room(size: int, n: int, st: ScratchTrack) -> bool {
    &&& 4 <= size <= 255
    &&& 2 <= n <= 255
    &&& scratch_room(st)
    &&& st.left_limit() + 6 * size + n + 40 <= 0xF_0000
}

impl<'c> Cpu<'c> {
    fn digit_bit(&mut self, bit: Pos, out: Pos, val: u8, st: ScratchTrack)
        requires
            old(self).wf(),
            old(self).cur_frame is Some,
            pos_ok(bit),
            pos_ok(out),
            crate::cpu::scratch_ok(st),
        ensures
            final(self).st() == g_digit_bit(old(self).fs(), old(self).st(), bit, out, val, st),
            final(self).cfg == old(self).cfg,
            final(self).wf(),
            final(self).cur_frame is Some,
    {
        self.if_nonzero(bit, st,
            |cpu: &mut Cpu<'c>, t: ScratchTrack|
                requires pos_ok(bit), pos_ok(out), old(cpu).wf(), old(cpu).cur_frame is Some,
                ensures
                    final(cpu).cur_frame is Some,
                    final(cpu).st() == g_add_const(old(cpu).fs(), g_clr_at(old(cpu).fs(), old(cpu).st(), bit), out, val),
                    final(cpu).cfg == old(cpu).cfg,
                    final(cpu).wf()
                {
                    cpu.clr_at(bit);
                    cpu.add_const_to_byte(out, val);
                });
    }

    #[verifier::spinoff_prover]
    fn decimal_div10(&mut self, size: isize, xc: BinRegister, out_store: Register, st1: ScratchTrack)
        requires
            old(self).wf(),
            old(self).cur_frame is Some,
            4 <= size <= 255,
            xc.size == size,
            reg_ok(xc.as_register_spec()),
            reg_ok(out_store),
            out_store.size >= 2,
            scratch_room(st1),
            st1.left_limit() + 5 * size + 20 <= 0xF_0000,
        ensures
            final(self).st() == g_decimal_div10(old(self).fs(), old(self).st(), size as int, xc, out_store, st1),
            final(self).cfg == old(self).cfg,
            final(self).wf(),
            final(self).cur_frame is Some,
    {
        reveal(g_decimal_div10);
        self.shift_register_left(out_store, st1);
        let out = out_store.last_pos();
        self.add_const_to_byte(out, 48);
        let (rem, st2) = st1.split_binregister(size);
        let (div, st3) = st2.split_binregister(size);
        let (ten, st4) = st3.split_binregister(4);
        self.inc_at(ten.at(2));
        self.inc_at(ten.at(0));
        self.div_binregisters(xc, ten, div, rem, st4);
        self.clr_binregister(ten, st4);
    }

    #[verifier::spinoff_prover]
    fn decimal_requotient(&mut self, size: isize, xc: BinRegister, st1: ScratchTrack)
        requires
            old(self).wf(),
            old(self).cur_frame is Some,
            4 <= size <= 255,
            xc.size == size,
            reg_ok(xc.as_register_spec()),
            scratch_room(st1),
            st1.left_limit() + 5 * size + 20 <= 0xF_0000,
        ensures
            final(self).st() == g_decimal_requotient(old(self).fs(), old(self).st(), size as int, xc, st1),
            final(self).cfg == old(self).cfg,
            final(self).wf(),
            final(self).cur_frame is Some,
    {
        reveal(g_decimal_requotient);
        let st2 = st1.get_split_scratch(size);
        let (div, st3) = st2.split_binregister(size);
        self.copy_binregister(div, xc, st3, true);
        self.clr_binregister(div, st3);
    }

    #[verifier::spinoff_prover]
    fn decimal_digit(&mut self, size: isize, xc: BinRegister, out_store: Register, cb: Pos, st1: ScratchTrack)
        requires
            old(self).wf(),
            old(self).cur_frame is Some,
            4 <= size <= 255,
            xc.size == size,
            reg_ok(xc.as_register_spec()),
            reg_ok(out_store),
            out_store.size >= 2,
            pos_ok(cb),
            scratch_room(st1),
            st1.left_limit() + 5 * size + 20 <= 0xF_0000,
        ensures
            final(self).st() == g_decimal_digit(old(self).fs(), old(self).st(), size as int, xc, out_store, cb, st1),
            final(self).cfg == old(self).cfg,
            final(self).wf(),
            final(self).cur_frame is Some,
    {
        reveal(g_decimal_digit);
        let out = out_store.last_pos();
        let (rem, st2) = st1.split_binregister(size);
        self.digit_bit(rem.at(size - 1), out, 1, st2);
        self.digit_bit(rem.at(size - 2), out, 2, st2);
        self.digit_bit(rem.at(size - 3), out, 4, st2);
        self.digit_bit(rem.at(size - 4), out, 8, st2);
        self.if_binregister_nonzero_else(xc, st1,
            |cpu: &mut Cpu<'c>, t: ScratchTrack| ensures *final(cpu) == *old(cpu) {},
            |cpu: &mut Cpu<'c>, t: ScratchTrack|
                requires pos_ok(cb), old(cpu).wf(), old(cpu).cur_frame is Some,
                ensures
                    final(cpu).cur_frame is Some,
                    final(cpu).st() == g_op_at(old(cpu).fs(), old(cpu).st(), cb, Op::Dec),
                    final(cpu).cfg == old(cpu).cfg,
                    final(cpu).wf()
                { cpu.dec_at(cb); });
    }

    fn print_cell(&mut self, pos: Pos, st: ScratchTrack)
        requires
            old(self).wf(),
            old(self).cur_frame is Some,
            pos_ok(pos),
            crate::cpu::scratch_ok(st),
        ensures
            final(self).st() == g_print_cell(old(self).fs(), old(self).st(), pos, st),
            final(self).cfg == old(self).cfg,
            final(self).wf(),
            final(self).cur_frame is Some,
            -0x40_0000 <= final(self).cur_frame.unwrap() < 0x40_0000,
    {
        self.if_nonzero(pos, st,
            |cpu: &mut Cpu<'c>, t: ScratchTrack|
                requires pos_ok(pos), old(cpu).wf(), old(cpu).cur_frame is Some,
                ensures
                    final(cpu).cur_frame is Some,
                    final(cpu).st() == g_clr(g_op(g_goto(old(cpu).fs(), old(cpu).st(), pos), Op::Out)),
                    final(cpu).cfg == old(cpu).cfg,
                    final(cpu).wf()
                {
                    cpu.goto(pos);
                    cpu.out();
                    cpu.clr();
                });
    }

    /// Prints the binary register `x` in decimal. `out_store_size` cells hold
    /// the digits (one more than the most decimal digits a value of `x.size`
    /// bits has); the value is divided by ten until it is zero, each remainder
    /// becoming a digit, and the nonzero digit cells are printed from the first.
    #[verifier::spinoff_prover]
    pub fn print_binregister_in_decimal(&mut self, x: BinRegister, out_store_size: isize, scratch_track: ScratchTrack)
        requires
            old(self).wf(),
            old(self).cur_frame is Some,
            reg_ok(x.as_register_spec()),
            decimal_room(x.size as int, out_store_size as int, scratch_track),
        ensures
            final(self).st() == g_print_decimal(old(self).fs(), old(self).st(), x, out_store_size as int, scratch_track),
            final(self).cfg == old(self).cfg,
            final(self).cur_frame is Some,
    {
        let ghost fs = self.fs();
        let (cb, st1) = scratch_track.split_1();
        self.inc_at(cb);
        let (xc, st1b) = st1.split_binregister(x.size);
        self.add_binregister_to_binregister(x, xc, st1b);
        let (out_store, st1c) = st1b.split_register(out_store_size);
        self.goto(cb);
        let mut c = self.child();
        let ghost c0 = c.st();
        c.decimal_div10(x.size, xc, out_store, st1c);
        c.decimal_requotient(x.size, xc, st1c);
        c.decimal_digit(x.size, xc, out_store, cb, st1c);
        assert(c.st() == g_decimal_digit(fs, g_decimal_divide(fs, c0, x.size as int, xc, out_store, st1c), x.size as int, xc,
            out_store, cb, st1c));
        self.close_loop_at(cb, c);
        let last = out_store.last_pos();
        self.foreach_pos_of_register_rev(out_store, st1c,
            Some(|c: &mut Cpu<'c>, t: ScratchTrack| ensures *final(c) == *old(c) {}),
            |cpu: &mut Cpu<'c>, pos: Pos, t: ScratchTrack|
                requires pos_ok(pos), crate::cpu::scratch_ok(t), old(cpu).wf(), old(cpu).cur_frame is Some,
                ensures
                    final(cpu).cur_frame is Some,
                    -0x40_0000 <= final(cpu).cur_frame.unwrap() < 0x40_0000,
                    final(cpu).st() == g_print_cell(old(cpu).fs(), old(cpu).st(), pos, t),
                    final(cpu).cfg == old(cpu).cfg,
                    final(cpu).wf()
                { cpu.print_cell(pos, t); },
            Some(|c: &mut Cpu<'c>, t: ScratchTrack| ensures *final(c) == *old(c) {}));
    }
}

}
verus! {

use crate::cpu_runs::{
    appended, cursor_cell, lemma_add_const_runs, lemma_clr_at_runs, lemma_goto_runs, lemma_moveadd_runs,
    lemma_run_single_loop, pos_cell, same_io,
};
use crate::opt_equiv::{cell_at, lemma_run_append};
use crate::semantics::{machine_wf, run_loop, run_seq, step, wadd, Machine};

/// The code of `digit_bit(bit, out, val)`, run where the first scratch cell is
/// zero: if the cell of `bit` is not zero, it is cleared and `out` gains `val`;
/// otherwise nothing changes.
#[verifier::spinoff_prover]
#[verifier::rlimit(40)]
pub proof fn lemma_digit_bit_runs(fs: int, c: CpuState, bit: Pos, out: Pos, val: u8, st: ScratchTrack, m: Machine,
    t: Option<nat>, fuel: nat)
    requires
        c.frame is Some,
        machine_wf(m),
        m.ptr == cursor_cell(fs, c),
        pos_cell(fs, bit) >= 0,
        pos_cell(fs, out) >= 0,
        pos_cell(fs, st.first()) >= 0,
        pos_cell(fs, bit) != pos_cell(fs, out),
        pos_cell(fs, bit) != pos_cell(fs, st.first()),
        pos_cell(fs, out) != pos_cell(fs, st.first()),
        cell_at(m.cells, pos_cell(fs, st.first())) == 0,
        fuel >= 257,
    ensures
        ({
            let s2 = g_digit_bit(fs, c, bit, out, val, st);
            let (m2, e) = run_seq(appended(c, s2), m, t, fuel);
            let b = pos_cell(fs, bit);
            let o = pos_cell(fs, out);
            &&& s2.code == c.code + appended(c, s2)
            &&& s2.frame is Some
            &&& cursor_cell(fs, s2) == m2.ptr
            &&& e is None
            &&& machine_wf(m2)
            &&& same_io(m, m2)
            &&& cell_at(m2.cells, b) == 0
            &&& cell_at(m2.cells, o) == wadd(cell_at(m.cells, o), if cell_at(m.cells, b) != 0 { val } else { 0u8 })
            &&& forall|i: int| i != b && i != o ==> #[trigger] cell_at(m2.cells, i) == cell_at(m.cells, i)
        }),
{
    let b = pos_cell(fs, bit);
    let o = pos_cell(fs, out);
    let sf = st.first();
    let f = pos_cell(fs, sf);
    // Going to the bit.
    let s1 = g_goto(fs, c, bit);
    lemma_goto_runs(fs, c, bit, m, t, fuel);
    let m1 = run_seq(appended(c, s1), m, t, fuel).0;
    // The loop body: clear the bit, add the weight, move the (now zero) bit away, go back.
    let k0 = crate::cpu::child(s1);
    let k1 = g_clr_at(fs, k0, bit);
    let k2 = g_add_const(fs, k1, out, val);
    let k3 = crate::cpu::g_moveadd(fs, k2, bit, sf);
    let k4 = g_goto(fs, k3, bit);
    let body = k4.code;
    let s2l = crate::cpu::g_op(s1, Op::Loop(body));
    let s2 = g_digit_bit(fs, c, bit, out, val, st);
    assert(s2 == crate::cpu::g_moveadd(fs, s2l, sf, bit));
    if cell_at(m.cells, b) != 0 {
        assert(m1.cells[m1.ptr] == cell_at(m1.cells, b));
        assert(cell_at(m1.cells, b) == cell_at(m.cells, b));
        let fb = (fuel - 1) as nat;
        lemma_clr_at_runs(fs, k0, bit, m1, t, fb);
        let n1 = run_seq(appended(k0, k1), m1, t, fb).0;
        lemma_add_const_runs(fs, k1, out, val, n1, t, fb);
        let n2 = run_seq(appended(k1, k2), n1, t, fb).0;
        lemma_moveadd_runs(fs, k2, bit, sf, n2, t, fb);
        let n3 = run_seq(appended(k2, k3), n2, t, fb).0;
        lemma_goto_runs(fs, k3, bit, n3, t, fb);
        let n4 = run_seq(appended(k3, k4), n3, t, fb).0;
        assert(k0.code =~= Seq::<Op>::empty());
        assert(body =~= appended(k0, k1) + appended(k1, k2) + appended(k2, k3) + appended(k3, k4));
        lemma_run_append(appended(k0, k1) + appended(k1, k2) + appended(k2, k3), appended(k3, k4), m1, t, fb);
        lemma_run_append(appended(k0, k1) + appended(k1, k2), appended(k2, k3), m1, t, fb);
        lemma_run_append(appended(k0, k1), appended(k1, k2), m1, t, fb);
        assert(run_seq(body, m1, t, fb) == (n4, Option::<crate::semantics::RunErr>::None));
        assert(cell_at(n2.cells, b) == 0);
        assert(cell_at(n3.cells, f) == cell_at(n2.cells, f));
        assert(n4.cells[n4.ptr] == cell_at(n4.cells, b));
        assert(run_loop(body, n4, t, fb) == (n4, Option::<crate::semantics::RunErr>::None));
        assert(run_loop(body, m1, t, fuel) == (n4, Option::<crate::semantics::RunErr>::None));
        lemma_run_single_loop(body, m1, t, fuel);
        // Moving the zero scratch cell back onto the bit.
        lemma_moveadd_runs(fs, s2l, sf, bit, n4, t, fuel);
        let n5 = run_seq(appended(s2l, s2), n4, t, fuel).0;
        assert(appended(c, s2) =~= appended(c, s1) + seq![Op::Loop(body)] + appended(s2l, s2));
        lemma_run_append(appended(c, s1) + seq![Op::Loop(body)], appended(s2l, s2), m, t, fuel);
        lemma_run_append(appended(c, s1), seq![Op::Loop(body)], m, t, fuel);
        assert(cell_at(n4.cells, f) == 0);
        assert(cell_at(n2.cells, f) == cell_at(m.cells, f));
        assert(cell_at(n5.cells, b) == wadd(cell_at(n4.cells, b), 0));
        assert forall|i: int| i != b && i != o implies #[trigger] cell_at(n5.cells, i) == cell_at(m.cells, i) by {
            if i != f {
                assert(cell_at(n4.cells, i) == cell_at(n3.cells, i));
                assert(cell_at(n3.cells, i) == cell_at(n2.cells, i));
                assert(cell_at(n2.cells, i) == cell_at(n1.cells, i));
                assert(cell_at(n1.cells, i) == cell_at(m1.cells, i));
            }
        }
        assert(cell_at(n2.cells, o) == wadd(cell_at(n1.cells, o), val));
        assert(cell_at(n1.cells, o) == cell_at(m.cells, o));
    } else {
        assert(m1.cells[m1.ptr] == cell_at(m1.cells, b));
        assert(run_loop(body, m1, t, fuel) == (m1, Option::<crate::semantics::RunErr>::None));
        lemma_run_single_loop(body, m1, t, fuel);
        lemma_moveadd_runs(fs, s2l, sf, bit, m1, t, fuel);
        let n5 = run_seq(appended(s2l, s2), m1, t, fuel).0;
        assert(appended(c, s2) =~= appended(c, s1) + seq![Op::Loop(body)] + appended(s2l, s2));
        lemma_run_append(appended(c, s1) + seq![Op::Loop(body)], appended(s2l, s2), m, t, fuel);
        lemma_run_append(appended(c, s1), seq![Op::Loop(body)], m, t, fuel);
        assert(cell_at(m1.cells, f) == 0);
        assert(wadd(cell_at(m.cells, o), 0u8) == cell_at(m.cells, o));
        assert forall|i: int| i != b && i != o implies #[trigger] cell_at(n5.cells, i) == cell_at(m.cells, i) by {
            assert(cell_at(m1.cells, i) == cell_at(m.cells, i));
        }
    }
}

/// The number that the cells `lo..hi` of the register `r` hold in binary, the
/// cell `hi - 1` lowest; a cell that is not zero counts as a one.
pub open spec fn bin_cells_value(cells: Seq<u8>, fs: int, r: Register, lo: int, hi: int) -> int
    decreases hi - lo,
{
    if hi <= lo {
        0
    } else {
        2 * bin_cells_value(cells, fs, r, lo, hi - 1)
            + (if cell_at(cells, pos_cell(fs, reg_at(r, hi - 1))) != 0 { 1int } else { 0int })
    }
}

/// The tape cells that the digit step touches: the four low cells of the
/// remainder (lowest first), the digit cell, and the first scratch cell after
/// the remainder.
pub open spec fn digit_step_cells(fs: int, size: int, out_store: Register, st1: ScratchTrack) -> Seq<int> {
    let rem = scratch_bin(st1, size).as_register_spec();
    seq![
        pos_cell(fs, reg_at(rem, size - 1)),
        pos_cell(fs, reg_at(rem, size - 2)),
        pos_cell(fs, reg_at(rem, size - 3)),
        pos_cell(fs, reg_at(rem, size - 4)),
        pos_cell(fs, reg_at(out_store, out_store.size - 1)),
        pos_cell(fs, st1.spec_split(size).first()),
    ]
}

proof fn lemma_wadd2(x: u8, a: u8, b: u8)
    ensures wadd(wadd(x, a), b) == wadd(x, ((a + b) % 256) as u8),
{
    let y = wadd(x, a);
    assert(((y + b) % 256) as u8 == ((x + ((a + b) % 256) as u8) % 256) as u8) by (bit_vector)
        requires y == ((x + a) % 256) as u8;
}

#[verifier::spinoff_prover]
proof fn lemma_wadd4(x: u8, a: u8, b: u8, c: u8, d: u8)
    requires a + b + c + d < 256,
    ensures wadd(wadd(wadd(wadd(x, a), b), c), d) == ((x + a + b + c + d) % 256) as u8,
{
    let ab = (a + b) as u8;
    let abc = (a + b + c) as u8;
    let abcd = (a + b + c + d) as u8;
    lemma_wadd2(x, a, b);
    assert(((a + b) % 256) as u8 == ab);
    lemma_wadd2(x, ab, c);
    assert(((ab + c) % 256) as u8 == abc);
    lemma_wadd2(x, abc, d);
    assert(((abc + d) % 256) as u8 == abcd);
    assert(wadd(x, abcd) == ((x + abcd) % 256) as u8);
}

/// The digit step of the decimal printer adds the remainder's low bits to the
/// digit: run on a tape where the cells it touches are apart and the scratch
/// cell is zero, the code of `g_digit_bits` adds to the digit cell the number
/// that the four low cells of the remainder hold in binary (wrapping at 256),
/// clears those four cells, and changes no other cell.
#[verifier::rlimit(60)]
#[verifier::spinoff_prover]
pub proof fn lemma_digit_bits_runs(fs: int, c: CpuState, size: int, out_store: Register, st1: ScratchTrack, m: Machine,
    t: Option<nat>, fuel: nat)
    requires
        c.frame is Some,
        machine_wf(m),
        m.ptr == cursor_cell(fs, c),
        4 <= size,
        fuel >= 257,
        forall|i: int| 0 <= i < 6 ==> #[trigger] digit_step_cells(fs, size, out_store, st1)[i] >= 0,
        forall|i: int, j: int|
            0 <= i < j < 6 ==> #[trigger] digit_step_cells(fs, size, out_store, st1)[i]
                != #[trigger] digit_step_cells(fs, size, out_store, st1)[j],
        cell_at(m.cells, digit_step_cells(fs, size, out_store, st1)[5]) == 0,
    ensures
        ({
            let s2 = g_digit_bits(fs, c, size, out_store, st1);
            let (m2, e) = run_seq(appended(c, s2), m, t, fuel);
            let cs = digit_step_cells(fs, size, out_store, st1);
            let rem = scratch_bin(st1, size).as_register_spec();
            &&& s2.code == c.code + appended(c, s2)
            &&& s2.frame is Some
            &&& cursor_cell(fs, s2) == m2.ptr
            &&& e is None
            &&& machine_wf(m2)
            &&& same_io(m, m2)
            &&& cell_at(m2.cells, cs[4]) == (cell_at(m.cells, cs[4]) + bin_cells_value(m.cells, fs, rem, size - 4, size)) % 256
            &&& forall|k: int| 0 <= k < 4 ==> cell_at(m2.cells, #[trigger] cs[k]) == 0
            &&& forall|i: int| i != cs[0] && i != cs[1] && i != cs[2] && i != cs[3] && i != cs[4]
                ==> #[trigger] cell_at(m2.cells, i) == cell_at(m.cells, i)
        }),
{
    let cs = digit_step_cells(fs, size, out_store, st1);
    let out = reg_at(out_store, out_store.size - 1);
    let rem = scratch_bin(st1, size).as_register_spec();
    let st2 = st1.spec_split(size);
    let q1 = reg_at(rem, size - 1);
    let q2 = reg_at(rem, size - 2);
    let q3 = reg_at(rem, size - 3);
    let q4 = reg_at(rem, size - 4);
    assert(cs[0] == pos_cell(fs, q1) && cs[1] == pos_cell(fs, q2) && cs[2] == pos_cell(fs, q3) && cs[3] == pos_cell(fs, q4));
    assert(cs[4] == pos_cell(fs, out) && cs[5] == pos_cell(fs, st2.first()));
    assert(cs[0] >= 0 && cs[1] >= 0 && cs[2] >= 0 && cs[3] >= 0 && cs[4] >= 0 && cs[5] >= 0);
    assert(cs[0] != cs[1] && cs[0] != cs[2] && cs[0] != cs[3] && cs[0] != cs[4] && cs[0] != cs[5]);
    assert(cs[1] != cs[2] && cs[1] != cs[3] && cs[1] != cs[4] && cs[1] != cs[5]);
    assert(cs[2] != cs[3] && cs[2] != cs[4] && cs[2] != cs[5]);
    assert(cs[3] != cs[4] && cs[3] != cs[5] && cs[4] != cs[5]);
    let c1 = g_digit_bit(fs, c, q1, out, 1, st2);
    let c2 = g_digit_bit(fs, c1, q2, out, 2, st2);
    let c3 = g_digit_bit(fs, c2, q3, out, 4, st2);
    let c4 = g_digit_bit(fs, c3, q4, out, 8, st2);
    lemma_digit_bit_runs(fs, c, q1, out, 1, st2, m, t, fuel);
    let m1 = run_seq(appended(c, c1), m, t, fuel).0;
    lemma_digit_bit_runs(fs, c1, q2, out, 2, st2, m1, t, fuel);
    let m2 = run_seq(appended(c1, c2), m1, t, fuel).0;
    lemma_digit_bit_runs(fs, c2, q3, out, 4, st2, m2, t, fuel);
    let m3 = run_seq(appended(c2, c3), m2, t, fuel).0;
    lemma_digit_bit_runs(fs, c3, q4, out, 8, st2, m3, t, fuel);
    let m4 = run_seq(appended(c3, c4), m3, t, fuel).0;
    assert(appended(c, c4) =~= appended(c, c1) + appended(c1, c2) + appended(c2, c3) + appended(c3, c4));
    lemma_run_append(appended(c, c1) + appended(c1, c2) + appended(c2, c3), appended(c3, c4), m, t, fuel);
    lemma_run_append(appended(c, c1) + appended(c1, c2), appended(c2, c3), m, t, fuel);
    lemma_run_append(appended(c, c1), appended(c1, c2), m, t, fuel);
    assert(run_seq(appended(c, c4), m, t, fuel).0 == m4);
    let b1 = cell_at(m.cells, cs[0]) != 0;
    let b2 = cell_at(m.cells, cs[1]) != 0;
    let b3 = cell_at(m.cells, cs[2]) != 0;
    let b4 = cell_at(m.cells, cs[3]) != 0;
    assert(cell_at(m1.cells, cs[1]) == cell_at(m.cells, cs[1]));
    assert(cell_at(m2.cells, cs[2]) == cell_at(m1.cells, cs[2]) && cell_at(m1.cells, cs[2]) == cell_at(m.cells, cs[2]));
    assert(cell_at(m3.cells, cs[3]) == cell_at(m2.cells, cs[3]) && cell_at(m2.cells, cs[3]) == cell_at(m1.cells, cs[3])
        && cell_at(m1.cells, cs[3]) == cell_at(m.cells, cs[3]));
    let w1: u8 = if b1 { 1 } else { 0 };
    let w2: u8 = if b2 { 2 } else { 0 };
    let w3: u8 = if b3 { 4 } else { 0 };
    let w4: u8 = if b4 { 8 } else { 0 };
    let x = cell_at(m.cells, cs[4]);
    assert(cell_at(m4.cells, cs[4]) == wadd(wadd(wadd(wadd(x, w1), w2), w3), w4));
    lemma_wadd4(x, w1, w2, w3, w4);
    reveal_with_fuel(bin_cells_value, 5);
    assert(bin_cells_value(m.cells, fs, rem, size - 4, size) == w1 + w2 + w3 + w4);
    assert forall|k: int| 0 <= k < 4 implies cell_at(m4.cells, #[trigger] cs[k]) == 0 by {
        if k == 0 {
            assert(cell_at(m2.cells, cs[0]) == cell_at(m1.cells, cs[0]));
        } else if k == 1 {
            assert(cell_at(m3.cells, cs[1]) == cell_at(m2.cells, cs[1]));
        } else if k == 2 {
        }
    }
    assert forall|i: int| i != cs[0] && i != cs[1] && i != cs[2] && i != cs[3] && i != cs[4]
        implies #[trigger] cell_at(m4.cells, i) == cell_at(m.cells, i) by {
        assert(cell_at(m3.cells, i) == cell_at(m2.cells, i));
        assert(cell_at(m2.cells, i) == cell_at(m1.cells, i));
    }
}

/// The code of `print_cell(pos)`, run where the first scratch cell is zero:
/// if the cell of `pos` is not zero it is written to the output and cleared;
/// otherwise nothing changes. No other cell changes.
#[verifier::spinoff_prover]
#[verifier::rlimit(40)]
pub proof fn lemma_print_cell_runs(fs: int, c: CpuState, pos: Pos, st: ScratchTrack, m: Machine, t: Option<nat>, fuel: nat)
    requires
        c.frame is Some,
        machine_wf(m),
        m.ptr == cursor_cell(fs, c),
        pos_cell(fs, pos) >= 0,
        pos_cell(fs, st.first()) >= 0,
        pos_cell(fs, pos) != pos_cell(fs, st.first()),
        cell_at(m.cells, pos_cell(fs, st.first())) == 0,
        fuel >= 257,
    ensures
        ({
            let s2 = g_print_cell(fs, c, pos, st);
            let (m2, e) = run_seq(appended(c, s2), m, t, fuel);
            let p = pos_cell(fs, pos);
            &&& s2.code == c.code + appended(c, s2)
            &&& s2.frame is Some
            &&& cursor_cell(fs, s2) == m2.ptr
            &&& e is None
            &&& machine_wf(m2)
            &&& m2.input == m.input && m2.in_pos == m.in_pos && m2.messages == m.messages
            &&& m2.output == (if cell_at(m.cells, p) != 0 { m.output.push(cell_at(m.cells, p)) } else { m.output })
            &&& cell_at(m2.cells, p) == 0
            &&& forall|i: int| i != p ==> #[trigger] cell_at(m2.cells, i) == cell_at(m.cells, i)
        }),
{
    let p = pos_cell(fs, pos);
    let sf = st.first();
    let f = pos_cell(fs, sf);
    let s1 = g_goto(fs, c, pos);
    lemma_goto_runs(fs, c, pos, m, t, fuel);
    let m1 = run_seq(appended(c, s1), m, t, fuel).0;
    let k0 = crate::cpu::child(s1);
    let k1 = g_goto(fs, k0, pos);
    let k2 = crate::cpu::g_op(k1, Op::Out);
    let k3 = crate::cpu::g_clr(k2);
    let k4 = crate::cpu::g_moveadd(fs, k3, pos, sf);
    let k5 = g_goto(fs, k4, pos);
    let body = k5.code;
    let s2l = crate::cpu::g_op(s1, Op::Loop(body));
    let s2 = g_print_cell(fs, c, pos, st);
    assert(s2 == crate::cpu::g_moveadd(fs, s2l, sf, pos));
    assert(appended(c, s2) =~= appended(c, s1) + seq![Op::Loop(body)] + appended(s2l, s2));
    lemma_run_append(appended(c, s1) + seq![Op::Loop(body)], appended(s2l, s2), m, t, fuel);
    lemma_run_append(appended(c, s1), seq![Op::Loop(body)], m, t, fuel);
    lemma_run_single_loop(body, m1, t, fuel);
    assert(m1.cells[m1.ptr] == cell_at(m1.cells, p));
    assert(cell_at(m1.cells, p) == cell_at(m.cells, p));
    if cell_at(m.cells, p) != 0 {
        let fb = (fuel - 1) as nat;
        lemma_goto_runs(fs, k0, pos, m1, t, fb);
        let n1 = run_seq(appended(k0, k1), m1, t, fb).0;
        let n2 = step(Op::Out, n1, t).0;
        assert(n1.ptr == p);
        assert(cell_at(n1.cells, p) == cell_at(m1.cells, p));
        assert(n1.cells[n1.ptr] == cell_at(n1.cells, p));
        assert(n1.cells[n1.ptr] == cell_at(m.cells, p));
        crate::cpu_runs::lemma_clear_loop(n2, t, fb);
        let n3 = run_loop(seq![Op::Dec], n2, t, fb).0;
        lemma_moveadd_runs(fs, k3, pos, sf, n3, t, fb);
        let n4 = run_seq(appended(k3, k4), n3, t, fb).0;
        lemma_goto_runs(fs, k4, pos, n4, t, fb);
        let n5 = run_seq(appended(k4, k5), n4, t, fb).0;
        assert(k0.code =~= Seq::<Op>::empty());
        let rest = seq![Op::Out] + seq![Op::Loop(seq![Op::Dec])];
        assert(body =~= appended(k0, k1) + rest + appended(k3, k4) + appended(k4, k5));
        lemma_run_append(appended(k0, k1) + rest + appended(k3, k4), appended(k4, k5), m1, t, fb);
        lemma_run_append(appended(k0, k1) + rest, appended(k3, k4), m1, t, fb);
        lemma_run_append(appended(k0, k1), rest, m1, t, fb);
        lemma_run_append(seq![Op::Out], seq![Op::Loop(seq![Op::Dec])], n1, t, fb);
        assert(seq![Op::Out][0] == Op::Out);
        assert(seq![Op::Out].drop_first() =~= Seq::<Op>::empty());
        assert(crate::semantics::run_one(Op::Out, n1, t, fb) == step(Op::Out, n1, t));
        assert(step(Op::Out, n1, t).1 is None);
        assert(run_seq(Seq::<Op>::empty(), n2, t, fb) == (n2, Option::<crate::semantics::RunErr>::None));
        assert(run_seq(seq![Op::Out], n1, t, fb) == (n2, Option::<crate::semantics::RunErr>::None));
        lemma_run_single_loop(seq![Op::Dec], n2, t, fb);
        assert(run_seq(body, m1, t, fb) == (n5, Option::<crate::semantics::RunErr>::None));
        assert(cell_at(n3.cells, p) == 0);
        assert(n5.cells[n5.ptr] == cell_at(n5.cells, p));
        assert(run_loop(body, n5, t, fb) == (n5, Option::<crate::semantics::RunErr>::None));
        lemma_moveadd_runs(fs, s2l, sf, pos, n5, t, fuel);
        let n6 = run_seq(appended(s2l, s2), n5, t, fuel).0;
        assert(cell_at(n3.cells, f) == cell_at(n2.cells, f));
        assert(cell_at(n2.cells, f) == cell_at(n1.cells, f));
        assert(cell_at(n1.cells, f) == cell_at(m1.cells, f));
        assert(cell_at(n5.cells, f) == 0);
        assert forall|i: int| i != p implies #[trigger] cell_at(n6.cells, i) == cell_at(m.cells, i) by {
            if i != f {
                assert(cell_at(n5.cells, i) == cell_at(n4.cells, i));
                assert(cell_at(n4.cells, i) == cell_at(n3.cells, i));
                assert(cell_at(n3.cells, i) == cell_at(n2.cells, i));
                assert(cell_at(n2.cells, i) == cell_at(n1.cells, i));
                assert(cell_at(n1.cells, i) == cell_at(m1.cells, i));
            }
        }
    } else {
        assert(run_loop(body, m1, t, fuel) == (m1, Option::<crate::semantics::RunErr>::None));
        lemma_moveadd_runs(fs, s2l, sf, pos, m1, t, fuel);
        let n6 = run_seq(appended(s2l, s2), m1, t, fuel).0;
        assert(cell_at(m1.cells, f) == 0);
        assert forall|i: int| i != p implies #[trigger] cell_at(n6.cells, i) == cell_at(m.cells, i) by {
            assert(cell_at(m1.cells, i) == cell_at(m.cells, i));
        }
    }
}

}
