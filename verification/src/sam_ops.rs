//! The code that the SAM interpreter on the tape runs for each instruction.
//! The machine's registers sit at fixed frames of the scratch track (track 0),
//! the program and its data on the stack track (track 1), whose frame 0 is
//! the cell that the current pointer names.

use crate::cpu::{
    g_add_const, g_add_register, g_clr_at, g_clr_register, g_copy_auto, g_copy_register, g_goto, g_if_nonzero_else,
    g_inc_register, g_loop_while, g_moveadd, g_op, g_op_at, g_pack_bytes, g_unpack_bytes, pack_apart, reg_at, split_reg_spec, Cpu,
    CpuState, BinRegister, Pos, Register, ScratchTrack, Track,
};
use crate::cpu_decimal::{g_print_decimal, scratch_bin};
use crate::cpu_flow::{g_add_bins, g_compare_uint_bins, g_cmp_u8s, g_div_bins, g_div_u8s, g_mul_bins, g_sub_bins, reg_sub};
use crate::semantics::Op;
use vstd::prelude::*;

verus! {

/// A register of the scratch track.
pub open spec fn sreg(offset: int, size: int) -> Register {
    Register { track: Track { track_num: 1 }, size: size as isize, offset: offset as isize }
}

/// A register of the stack track.
pub open spec fn dreg(offset: int, size: int) -> Register {
    Register { track: Track { track_num: 0 }, size: size as isize, offset: offset as isize }
}

/// A cell of the scratch track.
pub open spec fn spos(frame: int) -> Pos {
    Pos { frame: frame as isize, track: 1 }
}

/// The scratch track with its first `n` frames in use.
pub open spec fn sc(n: int) -> ScratchTrack {
    ScratchTrack { track: Track { track_num: 1 }, offset: 0, dont_go_left_of: Some(n as isize) }
}

pub open spec fn r_a() -> Register { sreg(0, 4) }
pub open spec fn r_b() -> Register { sreg(4, 4) }
pub open spec fn r_c() -> Register { sreg(8, 4) }
pub open spec fn r_x() -> Register { sreg(12, 1) }
pub open spec fn r_iptr() -> Register { sreg(13, 4) }
pub open spec fn r_cur() -> Register { sreg(17, 4) }
pub open spec fn p_not_halted() -> Pos { spos(21) }
pub open spec fn p_should_goto_b() -> Pos { spos(22) }
pub open spec fn p_instr() -> Pos { spos(23) }
pub open spec fn r_instr_data() -> Register { sreg(24, 4) }
pub open spec fn p_inc_iptr() -> Pos { spos(28) }
/// The scratch track that the instructions' code gets.
pub open spec fn st_ops() -> ScratchTrack { sc(29) }
/// The cell of `x`.
pub open spec fn p_x() -> Pos { spos(12) }
/// The cell that `b` points at.
pub open spec fn p_atb() -> Pos { Pos { frame: 0, track: 0 } }
pub open spec fn r_atb1() -> Register { dreg(0, 1) }
pub open spec fn r_atb4() -> Register { dreg(0, 4) }

/// The start of most instructions: a comment with the name, and the length of
/// the instruction added to the increment of the instruction pointer.
pub open spec fn g_intro(fs: int, s: CpuState, name: Seq<char>, len: u8) -> CpuState {
    g_add_const(fs, g_op(s, Op::Comment(name)), p_inc_iptr(), len)
}

/// The 32-bit scratch register at the start of `st`.
pub open spec fn b32(st: ScratchTrack) -> BinRegister {
    scratch_bin(st, 32)
}

pub open spec fn rb(r: BinRegister) -> Register {
    r.as_register_spec()
}

/// `r1` and `r2` (of 4 bytes) unpacked into the first two 32-bit registers of `t`.
#[verifier::opaque]
pub open spec fn g_unpack_pair(fs: int, s: CpuState, r1: Register, r2: Register, t: ScratchTrack) -> CpuState {
    let t1 = t.spec_split(32);
    g_unpack_bytes(fs, g_unpack_bytes(fs, s, r1, b32(t), t1, 4), r2, b32(t1), t1.spec_split(32), 4)
}

#[verifier::opaque]
pub open spec fn g_op_halt(fs: int, s: CpuState) -> CpuState {
    g_clr_at(fs, g_op(s, Op::Comment("Halt"@)), p_not_halted())
}

#[verifier::opaque]
pub open spec fn g_op_set_x(fs: int, s: CpuState) -> CpuState {
    g_copy_register(fs, g_intro(fs, s, "SetX"@, 2), reg_sub(r_instr_data(), 0, 1), r_x(), st_ops(), true)
}

#[verifier::opaque]
pub open spec fn g_op_set_a(fs: int, s: CpuState) -> CpuState {
    g_copy_register(fs, g_intro(fs, s, "SetA"@, 5), r_instr_data(), r_a(), st_ops(), true)
}

#[verifier::opaque]
pub open spec fn g_op_read_a_at_b(fs: int, s: CpuState) -> CpuState {
    g_copy_register(fs, g_intro(fs, s, "ReadAAtB"@, 1), r_atb4(), r_a(), st_ops(), true)
}

#[verifier::opaque]
pub open spec fn g_op_read_x_at_b(fs: int, s: CpuState) -> CpuState {
    g_copy_register(fs, g_intro(fs, s, "ReadXAtB"@, 1), r_atb1(), r_x(), st_ops(), true)
}

#[verifier::opaque]
pub open spec fn g_op_write_a_at_b(fs: int, s: CpuState) -> CpuState {
    g_copy_register(fs, g_intro(fs, s, "WriteAAtB"@, 1), r_a(), r_atb4(), st_ops(), true)
}

#[verifier::opaque]
pub open spec fn g_op_write_x_at_b(fs: int, s: CpuState) -> CpuState {
    g_copy_register(fs, g_intro(fs, s, "WriteXAtB"@, 1), r_x(), r_atb1(), st_ops(), true)
}

#[verifier::opaque]
pub open spec fn g_op_print_char_x(fs: int, s: CpuState) -> CpuState {
    g_op(g_goto(fs, g_intro(fs, s, "PrintCharX"@, 1), p_x()), Op::Out)
}

#[verifier::opaque]
pub open spec fn g_op_stdin_x(fs: int, s: CpuState) -> CpuState {
    g_op(g_goto(fs, g_intro(fs, s, "StdinX"@, 1), p_x()), Op::In)
}

/// Adds (or with `add` false, subtracts) the instruction's constant to `b`, in binary.
#[verifier::opaque]
pub open spec fn g_op_step_b(fs: int, s: CpuState, add: bool) -> CpuState {
    let t = st_ops();
    let vu = b32(t);
    let t1 = t.spec_split(32);
    let bu = b32(t1);
    let t2 = t1.spec_split(32);
    let c0 = if add { g_intro(fs, s, "AddConstToB"@, 5) } else { g_intro(fs, s, "SubConstFromB"@, 5) };
    let c1 = g_unpack_pair(fs, c0, r_instr_data(), r_b(), t);
    let c2 = if add { g_add_bins(fs, c1, rb(vu), rb(bu), t2) } else { g_sub_bins(fs, c1, rb(vu), rb(bu), t2) };
    let c3 = g_pack_bytes(fs, c2, bu, r_b(), t2, true, 4);
    g_clr_register(fs, g_clr_register(fs, c3, rb(bu), t2), rb(vu), t2)
}

#[verifier::opaque]
pub open spec fn g_op_print_a(fs: int, s: CpuState) -> CpuState {
    let t = st_ops();
    let au = b32(t);
    let t1 = t.spec_split(32);
    let c1 = g_unpack_bytes(fs, g_intro(fs, s, "PrintA"@, 1), r_a(), au, t1, 4);
    g_clr_register(fs, g_print_decimal(fs, c1, au, 11, t1), rb(au), t1)
}

#[verifier::opaque]
pub open spec fn g_op_call(fs: int, s: CpuState) -> CpuState {
    let t = st_ops();
    let counter = t.first();
    let t1 = t.spec_split(1);
    let c1 = g_add_const(fs, g_op(s, Op::Comment("Call"@)), counter, 5);
    let c2 = g_loop_while(fs, c1, counter, |c: CpuState| g_inc_register(fs, g_op(c, Op::Dec), r_iptr(), t1));
    g_copy_register(fs, g_copy_register(fs, c2, r_iptr(), r_atb4(), t, true), r_instr_data(), r_iptr(), t, true)
}

#[verifier::opaque]
pub open spec fn g_op_ret(fs: int, s: CpuState) -> CpuState {
    g_copy_register(fs, g_op(s, Op::Comment("Ret"@)), r_atb4(), r_iptr(), st_ops(), true)
}

#[verifier::opaque]
pub open spec fn g_op_jump(fs: int, s: CpuState) -> CpuState {
    g_add_register(fs, g_op(s, Op::Comment("Jump"@)), r_instr_data(), r_iptr(), st_ops())
}

#[verifier::opaque]
pub open spec fn g_op_jump_if_x(fs: int, s: CpuState) -> CpuState {
    g_if_nonzero_else(fs, g_op(s, Op::Comment("JumpIfX"@)), p_x(), st_ops(),
        |c: CpuState| g_add_register(fs, c, r_instr_data(), r_iptr(), st_ops()),
        |c: CpuState| g_add_const(fs, c, p_inc_iptr(), 5))
}

#[verifier::opaque]
pub open spec fn g_op_add_u8_at_b_to_x(fs: int, s: CpuState) -> CpuState {
    g_copy_auto(fs, g_intro(fs, s, "AddU8AtBToX"@, 1), p_atb(), p_x(), st_ops())
}

#[verifier::opaque]
pub open spec fn g_op_mul_u8_at_b_to_x(fs: int, s: CpuState) -> CpuState {
    let t = st_ops();
    let x_cpy = t.first();
    let bval = t.first().shifted(1);
    let t1 = t.spec_split(2);
    let c0 = g_intro(fs, s, "MulU8AtBToX"@, 1);
    let c1 = g_clr_at(fs, g_copy_auto(fs, g_copy_auto(fs, c0, p_x(), x_cpy, t1), p_atb(), bval, t1), p_x());
    let c2 = g_loop_while(fs, c1, bval, |c: CpuState| g_copy_auto(fs, g_op(c, Op::Dec), x_cpy, p_x(), t1));
    g_clr_at(fs, c2, x_cpy)
}

#[verifier::opaque]
pub open spec fn g_op_add_u32_at_b_to_a(fs: int, s: CpuState) -> CpuState {
    let t = st_ops();
    let au = b32(t);
    let t1 = t.spec_split(32);
    let atbu = b32(t1);
    let t2 = t1.spec_split(32);
    let c0 = g_intro(fs, s, "AddU32AtBToA"@, 1);
    let c1 = g_unpack_pair(fs, c0, r_a(), r_atb4(), t);
    let c2 = g_pack_bytes(fs, g_add_bins(fs, c1, rb(atbu), rb(au), t2), au, r_a(), t2, true, 4);
    g_clr_register(fs, g_clr_register(fs, c2, rb(au), t2), rb(atbu), t2)
}

#[verifier::opaque]
pub open spec fn g_op_mul_u32_at_b_to_a(fs: int, s: CpuState) -> CpuState {
    let t = st_ops();
    let au = b32(t);
    let t1 = t.spec_split(32);
    let atbu = b32(t1);
    let t2 = t1.spec_split(32);
    let ru = b32(t2);
    let t3 = t2.spec_split(32);
    let c0 = g_intro(fs, s, "MulU32AtBToA"@, 1);
    let c1 = g_unpack_pair(fs, c0, r_a(), r_atb4(), t);
    let c2 = g_pack_bytes(fs, g_mul_bins(fs, c1, rb(au), rb(atbu), rb(ru), t3), ru, r_a(), t3, true, 4);
    g_clr_register(fs, g_clr_register(fs, g_clr_register(fs, c2, rb(au), t3), rb(atbu), t3), rb(ru), t3)
}

#[verifier::opaque]
pub open spec fn g_op_neg_a(fs: int, s: CpuState) -> CpuState {
    let t = st_ops();
    let au = b32(t);
    let t1 = t.spec_split(32);
    let ru = b32(t1);
    let t2 = t1.spec_split(32);
    let c1 = g_unpack_bytes(fs, g_intro(fs, s, "NegA"@, 1), r_a(), au, t1, 4);
    let c2 = g_pack_bytes(fs, g_sub_bins(fs, c1, rb(au), rb(ru), t2), ru, r_a(), t2, true, 4);
    g_clr_register(fs, g_clr_register(fs, c2, rb(au), t2), rb(ru), t2)
}

#[verifier::opaque]
pub open spec fn g_op_neg_x(fs: int, s: CpuState) -> CpuState {
    let x_cpy = st_ops().first();
    let c1 = g_moveadd(fs, g_intro(fs, s, "NegX"@, 1), p_x(), x_cpy);
    g_loop_while(fs, c1, x_cpy, |c: CpuState| g_op_at(fs, g_op(c, Op::Dec), p_x(), Op::Dec))
}

#[verifier::opaque]
pub open spec fn g_op_move_x_to_a(fs: int, s: CpuState) -> CpuState {
    let c1 = g_clr_register(fs, g_intro(fs, s, "MoveXToA"@, 1), r_a(), st_ops());
    g_copy_auto(fs, c1, p_x(), reg_at(r_a(), 3), st_ops())
}

#[verifier::opaque]
pub open spec fn g_op_not_x(fs: int, s: CpuState) -> CpuState {
    g_if_nonzero_else(fs, g_intro(fs, s, "NotX"@, 1), p_x(), st_ops(),
        |c: CpuState| g_clr_at(fs, c, p_x()), |c: CpuState| g_op_at(fs, c, p_x(), Op::Inc))
}

#[verifier::opaque]
pub open spec fn g_op_add_const_to_x(fs: int, s: CpuState) -> CpuState {
    g_copy_register(fs, g_intro(fs, s, "AddConstToX"@, 2), reg_sub(r_instr_data(), 0, 1), r_x(), st_ops(), false)
}

#[verifier::opaque]
pub open spec fn g_op_compare_u8(fs: int, s: CpuState) -> CpuState {
    let t = st_ops();
    let res = t.first();
    let t1 = t.spec_split(1);
    let c1 = g_cmp_u8s(fs, g_intro(fs, s, "CmpU8AtBWithX"@, 1), p_x(), p_atb(), res, t1);
    g_moveadd(fs, g_clr_at(fs, c1, p_x()), res, p_x())
}

#[verifier::opaque]
pub open spec fn g_op_compare_u32(fs: int, s: CpuState) -> CpuState {
    let t = st_ops();
    let au = b32(t);
    let t1 = t.spec_split(32);
    let atbu = b32(t1);
    let t2 = t1.spec_split(32);
    let res = t2.first();
    let t3 = t2.spec_split(1);
    let c0 = g_intro(fs, s, "CmpU32AtBWithA"@, 1);
    let c1 = g_unpack_pair(fs, c0, r_a(), r_atb4(), t);
    let c2 = g_moveadd(fs, g_clr_at(fs, g_compare_uint_bins(fs, c1, rb(au), rb(atbu), res, t3), p_x()), res, p_x());
    g_clr_register(fs, g_clr_register(fs, c2, rb(au), t3), rb(atbu), t3)
}

/// `x = *b / x` (with `quotient` true) or `x = *b % x`, on bytes.
#[verifier::opaque]
pub open spec fn g_op_div_u8(fs: int, s: CpuState, quotient: bool) -> CpuState {
    let t = st_ops();
    let d = t.first();
    let r = t.first().shifted(1);
    let t1 = t.spec_split(2);
    let c0 = if quotient { g_intro(fs, s, "SetXToU8AtBDivByX"@, 1) } else { g_intro(fs, s, "SetXToU8AtBModX"@, 1) };
    let c1 = g_clr_at(fs, g_div_u8s(fs, c0, p_atb(), p_x(), d, r, t1), p_x());
    if quotient {
        g_clr_at(fs, g_moveadd(fs, c1, d, p_x()), r)
    } else {
        g_clr_at(fs, g_moveadd(fs, c1, r, p_x()), d)
    }
}

/// `a = *b / a` (with `quotient` true) or `a = *b % a`, on 32-bit values.
#[verifier::opaque]
pub open spec fn g_op_div_u32(fs: int, s: CpuState, quotient: bool) -> CpuState {
    let t = st_ops();
    let au = b32(t);
    let t1 = t.spec_split(32);
    let atbu = b32(t1);
    let t2 = t1.spec_split(32);
    let du = b32(t2);
    let t3 = t2.spec_split(32);
    let ru = b32(t3);
    let t4 = t3.spec_split(32);
    let c0 = if quotient { g_intro(fs, s, "SetAToU32AtBDivByA"@, 1) } else { g_intro(fs, s, "SetAToU32AtBModA"@, 1) };
    let c1 = g_clr_register(fs, g_unpack_bytes(fs, c0, r_a(), au, t1, 4), r_a(), t1);
    let c2 = g_unpack_bytes(fs, c1, r_atb4(), atbu, t2, 4);
    let c3 = g_div_bins(fs, c2, rb(atbu), rb(au), rb(du), rb(ru), t4);
    let c4 = g_pack_bytes(fs, c3, if quotient { du } else { ru }, r_a(), t4, true, 4);
    g_clr_register(fs, g_clr_register(fs, g_clr_register(fs, g_clr_register(fs, c4, rb(au), t4), rb(atbu), t4), rb(du), t4),
        rb(ru), t4)
}

#[verifier::opaque]
pub open spec fn g_op_copy_a_to_b(fs: int, s: CpuState) -> CpuState {
    g_copy_register(fs, g_intro(fs, s, "CopyAToB"@, 1), r_a(), r_b(), st_ops(), true)
}

#[verifier::opaque]
pub open spec fn g_op_copy_b_to_a(fs: int, s: CpuState) -> CpuState {
    g_copy_register(fs, g_intro(fs, s, "CopyBToA"@, 1), r_b(), r_a(), st_ops(), true)
}

#[verifier::opaque]
pub open spec fn g_op_swap_b_and_c(fs: int, s: CpuState) -> CpuState {
    let t = st_ops();
    let c_cpy = split_reg_spec(t, 4);
    let t1 = t.spec_split(4);
    let c1 = g_copy_register(fs, g_intro(fs, s, "SwapBAndC"@, 1), r_c(), c_cpy, t1, false);
    let c2 = g_copy_register(fs, g_copy_register(fs, c1, r_b(), r_c(), t1, true), c_cpy, r_b(), t1, true);
    g_clr_register(fs, c2, c_cpy, t1)
}

/// The code for the instruction with opcode `k`.
pub open spec fn g_sam_op(fs: int, s: CpuState, k: int) -> CpuState {
    if k == 0 { g_op_halt(fs, s) }
    else if k == 1 { g_op_set_x(fs, s) }
    else if k == 2 { g_op_set_a(fs, s) }
    else if k == 3 { g_op_read_a_at_b(fs, s) }
    else if k == 4 { g_op_read_x_at_b(fs, s) }
    else if k == 5 { g_op_write_a_at_b(fs, s) }
    else if k == 6 { g_op_write_x_at_b(fs, s) }
    else if k == 7 { g_op_print_char_x(fs, s) }
    else if k == 8 { g_op_stdin_x(fs, s) }
    else if k == 9 { g_op_step_b(fs, s, true) }
    else if k == 10 { g_op_step_b(fs, s, false) }
    else if k == 11 { g_op_print_a(fs, s) }
    else if k == 12 { g_op_call(fs, s) }
    else if k == 13 { g_op_ret(fs, s) }
    else if k == 14 { g_op_jump(fs, s) }
    else if k == 15 { g_op_jump_if_x(fs, s) }
    else if k == 16 { g_op_add_u8_at_b_to_x(fs, s) }
    else if k == 17 { g_op_mul_u8_at_b_to_x(fs, s) }
    else if k == 18 { g_op_add_u32_at_b_to_a(fs, s) }
    else if k == 19 { g_op_mul_u32_at_b_to_a(fs, s) }
    else if k == 20 { g_op_neg_a(fs, s) }
    else if k == 21 { g_op_neg_x(fs, s) }
    else if k == 22 { g_op_move_x_to_a(fs, s) }
    else if k == 23 { g_op_not_x(fs, s) }
    else if k == 24 { g_op_add_const_to_x(fs, s) }
    else if k == 25 { g_op_compare_u8(fs, s) }
    else if k == 26 { g_op_compare_u32(fs, s) }
    else if k == 27 { g_op_div_u8(fs, s, true) }
    else if k == 28 { g_op_div_u32(fs, s, true) }
    else if k == 29 { g_op_div_u8(fs, s, false) }
    else if k == 30 { g_op_div_u32(fs, s, false) }
    else if k == 31 { g_op_copy_a_to_b(fs, s) }
    else if k == 32 { g_op_copy_b_to_a(fs, s) }
    else { g_op_swap_b_and_c(fs, s) }
}


fn sreg_x(offset: isize, size: isize) -> (r: Register)
    ensures r == sreg(offset as int, size as int),
{
    Register { track: Track { track_num: 1 }, size, offset }
}

fn dreg_x(offset: isize, size: isize) -> (r: Register)
    ensures r == dreg(offset as int, size as int),
{
    Register { track: Track { track_num: 0 }, size, offset }
}

fn spos_x(frame: isize) -> (r: Pos)
    ensures r == spos(frame as int),
{
    Pos { frame, track: 1 }
}

fn sc_x(n: isize) -> (r: ScratchTrack)
    ensures r == sc(n as int),
{
    ScratchTrack { track: Track { track_num: 1 }, offset: 0, dont_go_left_of: Some(n) }
}

fn atb_x() -> (r: Pos)
    ensures r == p_atb(),
{
    Pos { frame: 0, track: 0 }
}

impl<'c> Cpu<'c> {
    fn intro(&mut self, name: &str, len: u8)
        requires
            old(self).wf(),
            old(self).cur_frame is Some,
            len > 0,
        ensures
            final(self).st() == g_intro(old(self).fs(), old(self).st(), name@, len),
            final(self).cfg == old(self).cfg,
            final(self).wf(),
            final(self).cur_frame is Some,
    {
        self.comment(name.to_owned());
        self.add_const_to_byte(spos_x(28), len);
    }

    fn op_halt(&mut self)
        requires old(self).wf(), old(self).cur_frame is Some,
        ensures
            final(self).st() == g_op_halt(old(self).fs(), old(self).st()),
            final(self).cfg == old(self).cfg, final(self).wf(), final(self).cur_frame is Some,
    {
        reveal(g_op_halt);
        self.comment("Halt".to_owned());
        self.clr_at(spos_x(21));
    }

    fn op_set_x(&mut self)
        requires old(self).wf(), old(self).cur_frame is Some,
        ensures
            final(self).st() == g_op_set_x(old(self).fs(), old(self).st()),
            final(self).cfg == old(self).cfg, final(self).wf(), final(self).cur_frame is Some,
    {
        reveal(g_op_set_x);
        self.intro("SetX", 2);
        self.copy_register(sreg_x(24, 4).subview(0, 1), sreg_x(12, 1), sc_x(29), true);
    }

    fn op_set_a(&mut self)
        requires old(self).wf(), old(self).cur_frame is Some,
        ensures
            final(self).st() == g_op_set_a(old(self).fs(), old(self).st()),
            final(self).cfg == old(self).cfg, final(self).wf(), final(self).cur_frame is Some,
    {
        reveal(g_op_set_a);
        self.intro("SetA", 5);
        self.copy_register(sreg_x(24, 4), sreg_x(0, 4), sc_x(29), true);
    }

    fn op_read_a_at_b(&mut self)
        requires old(self).wf(), old(self).cur_frame is Some,
        ensures
            final(self).st() == g_op_read_a_at_b(old(self).fs(), old(self).st()),
            final(self).cfg == old(self).cfg, final(self).wf(), final(self).cur_frame is Some,
    {
        reveal(g_op_read_a_at_b);
        self.intro("ReadAAtB", 1);
        self.copy_register(dreg_x(0, 4), sreg_x(0, 4), sc_x(29), true);
    }

    fn op_read_x_at_b(&mut self)
        requires old(self).wf(), old(self).cur_frame is Some,
        ensures
            final(self).st() == g_op_read_x_at_b(old(self).fs(), old(self).st()),
            final(self).cfg == old(self).cfg, final(self).wf(), final(self).cur_frame is Some,
    {
        reveal(g_op_read_x_at_b);
        self.intro("ReadXAtB", 1);
        self.copy_register(dreg_x(0, 1), sreg_x(12, 1), sc_x(29), true);
    }

    fn op_write_a_at_b(&mut self)
        requires old(self).wf(), old(self).cur_frame is Some,
        ensures
            final(self).st() == g_op_write_a_at_b(old(self).fs(), old(self).st()),
            final(self).cfg == old(self).cfg, final(self).wf(), final(self).cur_frame is Some,
    {
        reveal(g_op_write_a_at_b);
        self.intro("WriteAAtB", 1);
        self.copy_register(sreg_x(0, 4), dreg_x(0, 4), sc_x(29), true);
    }

    fn op_write_x_at_b(&mut self)
        requires old(self).wf(), old(self).cur_frame is Some,
        ensures
            final(self).st() == g_op_write_x_at_b(old(self).fs(), old(self).st()),
            final(self).cfg == old(self).cfg, final(self).wf(), final(self).cur_frame is Some,
    {
        reveal(g_op_write_x_at_b);
        self.intro("WriteXAtB", 1);
        self.copy_register(sreg_x(12, 1), dreg_x(0, 1), sc_x(29), true);
    }

    fn op_print_char_x(&mut self)
        requires old(self).wf(), old(self).cur_frame is Some,
        ensures
            final(self).st() == g_op_print_char_x(old(self).fs(), old(self).st()),
            final(self).cfg == old(self).cfg, final(self).wf(), final(self).cur_frame is Some,
    {
        reveal(g_op_print_char_x);
        self.intro("PrintCharX", 1);
        self.goto(spos_x(12));
        self.out();
    }

    fn op_stdin_x(&mut self)
        requires old(self).wf(), old(self).cur_frame is Some,
        ensures
            final(self).st() == g_op_stdin_x(old(self).fs(), old(self).st()),
            final(self).cfg == old(self).cfg, final(self).wf(), final(self).cur_frame is Some,
    {
        reveal(g_op_stdin_x);
        self.intro("StdinX", 1);
        self.goto(spos_x(12));
        self.read_stdin();
    }

    #[verifier::spinoff_prover]
    fn unpack_pair(&mut self, r1: Register, r2: Register, t: ScratchTrack)
        requires
            old(self).wf(),
            old(self).cur_frame is Some,
            r1.size == 4,
            r2.size == 4,
            r1 == r_instr_data() || r1 == r_a(),
            r2 == r_b() || r2 == r_atb4(),
            t == st_ops(),
        ensures
            final(self).st() == g_unpack_pair(old(self).fs(), old(self).st(), r1, r2, t),
            final(self).cfg == old(self).cfg, final(self).wf(), final(self).cur_frame is Some,
    {
        reveal(g_unpack_pair);
        let (vu, t1) = t.split_binregister(32);
        self.unpack_register(r1, vu, t1, false);
        let (bu, t2) = t1.split_binregister(32);
        self.unpack_register(r2, bu, t2, false);
    }

    /// Packs the 32 bits of `src` into `dst`, which is cleared first.
    fn pack_into(&mut self, src: BinRegister, dst: Register, t: ScratchTrack)
        requires
            old(self).wf(),
            old(self).cur_frame is Some,
            src.size == 32,
            dst == r_a() || dst == r_b(),
            src.track == t.track,
            t.offset == 0,
            29 <= src.offset,
            src.offset + src.size <= t.left_limit() <= 1000,
            t.track.track_num == 1,
        ensures
            final(self).st() == g_pack_bytes(old(self).fs(), old(self).st(), src, dst, t, true, 4),
            final(self).cfg == old(self).cfg, final(self).wf(), final(self).cur_frame is Some,
    {
        assert(pack_apart(src, t)) by {
            assert forall|i: int| 0 <= i < src.size implies {
                &&& #[trigger] reg_at(src.as_register_spec(), i) != t.first()
                &&& reg_at(src.as_register_spec(), i) != t.first().shifted(1)
            } by {
                assert(reg_at(src.as_register_spec(), i).frame == src.offset + i);
            }
        }
        self.pack_binregister(src, dst, t, true);
    }

    #[verifier::spinoff_prover]
    fn op_step_b(&mut self, add: bool)
        requires old(self).wf(), old(self).cur_frame is Some,
        ensures
            final(self).st() == g_op_step_b(old(self).fs(), old(self).st(), add),
            final(self).cfg == old(self).cfg, final(self).wf(), final(self).cur_frame is Some,
    {
        reveal(g_op_step_b);
        if add {
            self.intro("AddConstToB", 5);
        } else {
            self.intro("SubConstFromB", 5);
        }
        let t = sc_x(29);
        self.unpack_pair(sreg_x(24, 4), sreg_x(4, 4), t);
        let (vu, t1) = t.split_binregister(32);
        let (bu, t2) = t1.split_binregister(32);
        if add {
            self.add_binregister_to_binregister(vu, bu, t2);
        } else {
            self.sub_binregister_from_binregister(vu, bu, t2);
        }
        self.pack_into(bu, sreg_x(4, 4), t2);
        self.clr_binregister(bu, t2);
        self.clr_binregister(vu, t2);
    }

    #[verifier::spinoff_prover]
    fn op_print_a(&mut self)
        requires old(self).wf(), old(self).cur_frame is Some,
        ensures
            final(self).st() == g_op_print_a(old(self).fs(), old(self).st()),
            final(self).cfg == old(self).cfg, final(self).wf(), final(self).cur_frame is Some,
    {
        reveal(g_op_print_a);
        self.intro("PrintA", 1);
        let (au, t1) = sc_x(29).split_binregister(32);
        self.unpack_register(sreg_x(0, 4), au, t1, false);
        // ten decimal digits hold any 32-bit value; one more cell keeps a zero ahead
        self.print_binregister_in_decimal(au, 11, t1);
        self.clr_binregister(au, t1);
    }

    #[verifier::spinoff_prover]
    fn op_call(&mut self)
        requires old(self).wf(), old(self).cur_frame is Some,
        ensures
            final(self).st() == g_op_call(old(self).fs(), old(self).st()),
            final(self).cfg == old(self).cfg, final(self).wf(), final(self).cur_frame is Some,
    {
        reveal(g_op_call);
        let ghost fs = self.fs();
        self.comment("Call".to_owned());
        let t = sc_x(29);
        let (counter, t1) = t.split_1();
        self.add_const_to_byte(counter, 5);
        self.goto(counter);
        let mut c = self.child();
        let ghost c0 = c.st();
        c.dec();
        c.inc_register(sreg_x(13, 4), t1);
        assert(c.st() == g_inc_register(fs, g_op(c0, Op::Dec), r_iptr(), t1));
        self.close_loop_at(counter, c);
        self.copy_register(sreg_x(13, 4), dreg_x(0, 4), t, true);
        self.copy_register(sreg_x(24, 4), sreg_x(13, 4), t, true);
    }

    fn op_ret(&mut self)
        requires old(self).wf(), old(self).cur_frame is Some,
        ensures
            final(self).st() == g_op_ret(old(self).fs(), old(self).st()),
            final(self).cfg == old(self).cfg, final(self).wf(), final(self).cur_frame is Some,
    {
        reveal(g_op_ret);
        self.comment("Ret".to_owned());
        self.copy_register(dreg_x(0, 4), sreg_x(13, 4), sc_x(29), true);
    }

    fn op_jump(&mut self)
        requires old(self).wf(), old(self).cur_frame is Some,
        ensures
            final(self).st() == g_op_jump(old(self).fs(), old(self).st()),
            final(self).cfg == old(self).cfg, final(self).wf(), final(self).cur_frame is Some,
    {
        reveal(g_op_jump);
        self.comment("Jump".to_owned());
        self.add_register_to_register(sreg_x(24, 4), sreg_x(13, 4), sc_x(29));
    }

    #[verifier::spinoff_prover]
    fn op_jump_if_x(&mut self)
        requires old(self).wf(), old(self).cur_frame is Some,
        ensures
            final(self).st() == g_op_jump_if_x(old(self).fs(), old(self).st()),
            final(self).cfg == old(self).cfg, final(self).wf(), final(self).cur_frame is Some,
    {
        reveal(g_op_jump_if_x);
        let ghost fs = self.fs();
        self.comment("JumpIfX".to_owned());
        let ghost s1 = self.st();
        self.if_nonzero_else(spos_x(12), sc_x(29),
            |cpu: &mut Cpu<'c>, t: ScratchTrack|
                requires t == st_ops(), old(cpu).wf(), old(cpu).cur_frame is Some,
                ensures
                    final(cpu).cur_frame is Some,
                    final(cpu).st() == g_add_register(old(cpu).fs(), old(cpu).st(), r_instr_data(), r_iptr(), t),
                    final(cpu).cfg == old(cpu).cfg,
                    final(cpu).wf()
                { cpu.add_register_to_register(sreg_x(24, 4), sreg_x(13, 4), t); },
            |cpu: &mut Cpu<'c>, t: ScratchTrack|
                requires old(cpu).wf(), old(cpu).cur_frame is Some,
                ensures
                    final(cpu).cur_frame is Some,
                    final(cpu).st() == g_add_const(old(cpu).fs(), old(cpu).st(), p_inc_iptr(), 5),
                    final(cpu).cfg == old(cpu).cfg,
                    final(cpu).wf()
                { cpu.add_const_to_byte(spos_x(28), 5); });
        proof {
            crate::cpu_flow::lemma_ine_parts(fs, s1, p_x(), st_ops(),
                |c: CpuState| g_add_register(fs, c, r_instr_data(), r_iptr(), st_ops()),
                |c: CpuState| g_add_const(fs, c, p_inc_iptr(), 5));
        }
    }

    fn op_add_u8_at_b_to_x(&mut self)
        requires old(self).wf(), old(self).cur_frame is Some,
        ensures
            final(self).st() == g_op_add_u8_at_b_to_x(old(self).fs(), old(self).st()),
            final(self).cfg == old(self).cfg, final(self).wf(), final(self).cur_frame is Some,
    {
        reveal(g_op_add_u8_at_b_to_x);
        self.intro("AddU8AtBToX", 1);
        self.copy_byte_autoscratch(atb_x(), spos_x(12), sc_x(29));
    }

    #[verifier::spinoff_prover]
    fn op_mul_u8_at_b_to_x(&mut self)
        requires old(self).wf(), old(self).cur_frame is Some,
        ensures
            final(self).st() == g_op_mul_u8_at_b_to_x(old(self).fs(), old(self).st()),
            final(self).cfg == old(self).cfg, final(self).wf(), final(self).cur_frame is Some,
    {
        reveal(g_op_mul_u8_at_b_to_x);
        let ghost fs = self.fs();
        self.intro("MulU8AtBToX", 1);
        let (two, t1) = sc_x(29).split_2();
        let x_cpy = two[0];
        let bval = two[1];
        self.copy_byte_autoscratch(spos_x(12), x_cpy, t1);
        self.copy_byte_autoscratch(atb_x(), bval, t1);
        self.clr_at(spos_x(12));
        self.goto(bval);
        let mut c = self.child();
        let ghost c0 = c.st();
        c.dec();
        c.copy_byte_autoscratch(x_cpy, spos_x(12), t1);
        assert(c.st() == g_copy_auto(fs, g_op(c0, Op::Dec), x_cpy, p_x(), t1));
        self.close_loop_at(bval, c);
        self.clr_at(x_cpy);
    }

    #[verifier::spinoff_prover]
    fn op_add_u32_at_b_to_a(&mut self)
        requires old(self).wf(), old(self).cur_frame is Some,
        ensures
            final(self).st() == g_op_add_u32_at_b_to_a(old(self).fs(), old(self).st()),
            final(self).cfg == old(self).cfg, final(self).wf(), final(self).cur_frame is Some,
    {
        reveal(g_op_add_u32_at_b_to_a);
        self.intro("AddU32AtBToA", 1);
        let t = sc_x(29);
        self.unpack_pair(sreg_x(0, 4), dreg_x(0, 4), t);
        let (au, t1) = t.split_binregister(32);
        let (atbu, t2) = t1.split_binregister(32);
        self.add_binregister_to_binregister(atbu, au, t2);
        self.pack_into(au, sreg_x(0, 4), t2);
        self.clr_binregister(au, t2);
        self.clr_binregister(atbu, t2);
    }

    #[verifier::spinoff_prover]
    fn op_mul_u32_at_b_to_a(&mut self)
        requires old(self).wf(), old(self).cur_frame is Some,
        ensures
            final(self).st() == g_op_mul_u32_at_b_to_a(old(self).fs(), old(self).st()),
            final(self).cfg == old(self).cfg, final(self).wf(), final(self).cur_frame is Some,
    {
        reveal(g_op_mul_u32_at_b_to_a);
        self.intro("MulU32AtBToA", 1);
        let t = sc_x(29);
        self.unpack_pair(sreg_x(0, 4), dreg_x(0, 4), t);
        let (au, t1) = t.split_binregister(32);
        let (atbu, t2) = t1.split_binregister(32);
        let (ru, t3) = t2.split_binregister(32);
        self.mul_binregisters(au, atbu, ru, t3);
        self.pack_into(ru, sreg_x(0, 4), t3);
        self.clr_binregister(au, t3);
        self.clr_binregister(atbu, t3);
        self.clr_binregister(ru, t3);
    }

    #[verifier::spinoff_prover]
    fn op_neg_a(&mut self)
        requires old(self).wf(), old(self).cur_frame is Some,
        ensures
            final(self).st() == g_op_neg_a(old(self).fs(), old(self).st()),
            final(self).cfg == old(self).cfg, final(self).wf(), final(self).cur_frame is Some,
    {
        reveal(g_op_neg_a);
        self.intro("NegA", 1);
        let (au, t1) = sc_x(29).split_binregister(32);
        self.unpack_register(sreg_x(0, 4), au, t1, false);
        let (ru, t2) = t1.split_binregister(32);
        self.sub_binregister_from_binregister(au, ru, t2);
        self.pack_into(ru, sreg_x(0, 4), t2);
        self.clr_binregister(au, t2);
        self.clr_binregister(ru, t2);
    }

    fn op_neg_x(&mut self)
        requires old(self).wf(), old(self).cur_frame is Some,
        ensures
            final(self).st() == g_op_neg_x(old(self).fs(), old(self).st()),
            final(self).cfg == old(self).cfg, final(self).wf(), final(self).cur_frame is Some,
    {
        reveal(g_op_neg_x);
        let ghost fs = self.fs();
        self.intro("NegX", 1);
        let (x_cpy, _) = sc_x(29).split_1();
        self.moveadd_byte(spos_x(12), x_cpy);
        self.goto(x_cpy);
        let mut c = self.child();
        let ghost c0 = c.st();
        c.dec();
        c.dec_at(spos_x(12));
        assert(c.st() == g_op_at(fs, g_op(c0, Op::Dec), p_x(), Op::Dec));
        self.close_loop_at(x_cpy, c);
    }

    fn op_move_x_to_a(&mut self)
        requires old(self).wf(), old(self).cur_frame is Some,
        ensures
            final(self).st() == g_op_move_x_to_a(old(self).fs(), old(self).st()),
            final(self).cfg == old(self).cfg, final(self).wf(), final(self).cur_frame is Some,
    {
        reveal(g_op_move_x_to_a);
        self.intro("MoveXToA", 1);
        let a = sreg_x(0, 4);
        self.clr_register(a, sc_x(29));
        self.copy_byte_autoscratch(spos_x(12), a.at(a.size - 1), sc_x(29));
    }

    fn op_not_x(&mut self)
        requires old(self).wf(), old(self).cur_frame is Some,
        ensures
            final(self).st() == g_op_not_x(old(self).fs(), old(self).st()),
            final(self).cfg == old(self).cfg, final(self).wf(), final(self).cur_frame is Some,
    {
        reveal(g_op_not_x);
        self.intro("NotX", 1);
        self.not(spos_x(12), sc_x(29));
    }

    fn op_add_const_to_x(&mut self)
        requires old(self).wf(), old(self).cur_frame is Some,
        ensures
            final(self).st() == g_op_add_const_to_x(old(self).fs(), old(self).st()),
            final(self).cfg == old(self).cfg, final(self).wf(), final(self).cur_frame is Some,
    {
        reveal(g_op_add_const_to_x);
        self.intro("AddConstToX", 2);
        self.copy_register(sreg_x(24, 4).subview(0, 1), sreg_x(12, 1), sc_x(29), false);
    }

    fn op_compare_u8(&mut self)
        requires old(self).wf(), old(self).cur_frame is Some,
        ensures
            final(self).st() == g_op_compare_u8(old(self).fs(), old(self).st()),
            final(self).cfg == old(self).cfg, final(self).wf(), final(self).cur_frame is Some,
    {
        reveal(g_op_compare_u8);
        self.intro("CmpU8AtBWithX", 1);
        let (res, t1) = sc_x(29).split_1();
        self.cmp_2_u8s(spos_x(12), atb_x(), res, t1);
        self.clr_at(spos_x(12));
        self.moveadd_byte(res, spos_x(12));
    }

    #[verifier::spinoff_prover]
    fn op_compare_u32(&mut self)
        requires old(self).wf(), old(self).cur_frame is Some,
        ensures
            final(self).st() == g_op_compare_u32(old(self).fs(), old(self).st()),
            final(self).cfg == old(self).cfg, final(self).wf(), final(self).cur_frame is Some,
    {
        reveal(g_op_compare_u32);
        self.intro("CmpU32AtBWithA", 1);
        let t = sc_x(29);
        self.unpack_pair(sreg_x(0, 4), dreg_x(0, 4), t);
        let (au, t1) = t.split_binregister(32);
        let (atbu, t2) = t1.split_binregister(32);
        let (res, t3) = t2.split_1();
        self.cmp_2_uint_binregisters(au, atbu, res, t3);
        self.clr_at(spos_x(12));
        self.moveadd_byte(res, spos_x(12));
        self.clr_binregister(au, t3);
        self.clr_binregister(atbu, t3);
    }

    fn op_div_u8(&mut self, quotient: bool)
        requires old(self).wf(), old(self).cur_frame is Some,
        ensures
            final(self).st() == g_op_div_u8(old(self).fs(), old(self).st(), quotient),
            final(self).cfg == old(self).cfg, final(self).wf(), final(self).cur_frame is Some,
    {
        reveal(g_op_div_u8);
        if quotient {
            self.intro("SetXToU8AtBDivByX", 1);
        } else {
            self.intro("SetXToU8AtBModX", 1);
        }
        let (two, t1) = sc_x(29).split_2();
        let d = two[0];
        let r = two[1];
        self.div_u8s(atb_x(), spos_x(12), d, r, t1);
        self.clr_at(spos_x(12));
        if quotient {
            self.moveadd_byte(d, spos_x(12));
            self.clr_at(r);
        } else {
            self.moveadd_byte(r, spos_x(12));
            self.clr_at(d);
        }
    }

    #[verifier::spinoff_prover]
    fn op_div_u32(&mut self, quotient: bool)
        requires old(self).wf(), old(self).cur_frame is Some,
        ensures
            final(self).st() == g_op_div_u32(old(self).fs(), old(self).st(), quotient),
            final(self).cfg == old(self).cfg, final(self).wf(), final(self).cur_frame is Some,
    {
        reveal(g_op_div_u32);
        if quotient {
            self.intro("SetAToU32AtBDivByA", 1);
        } else {
            self.intro("SetAToU32AtBModA", 1);
        }
        let a = sreg_x(0, 4);
        let (au, t1) = sc_x(29).split_binregister(32);
        self.unpack_register(a, au, t1, false);
        self.clr_register(a, t1);
        let (atbu, t2) = t1.split_binregister(32);
        self.unpack_register(dreg_x(0, 4), atbu, t2, false);
        let (du, t3) = t2.split_binregister(32);
        let (ru, t4) = t3.split_binregister(32);
        self.div_binregisters(atbu, au, du, ru, t4);
        if quotient {
            self.pack_into(du, a, t4);
        } else {
            self.pack_into(ru, a, t4);
        }
        self.clr_binregister(au, t4);
        self.clr_binregister(atbu, t4);
        self.clr_binregister(du, t4);
        self.clr_binregister(ru, t4);
    }

    fn op_copy_a_to_b(&mut self)
        requires old(self).wf(), old(self).cur_frame is Some,
        ensures
            final(self).st() == g_op_copy_a_to_b(old(self).fs(), old(self).st()),
            final(self).cfg == old(self).cfg, final(self).wf(), final(self).cur_frame is Some,
    {
        reveal(g_op_copy_a_to_b);
        self.intro("CopyAToB", 1);
        self.copy_register(sreg_x(0, 4), sreg_x(4, 4), sc_x(29), true);
    }

    fn op_copy_b_to_a(&mut self)
        requires old(self).wf(), old(self).cur_frame is Some,
        ensures
            final(self).st() == g_op_copy_b_to_a(old(self).fs(), old(self).st()),
            final(self).cfg == old(self).cfg, final(self).wf(), final(self).cur_frame is Some,
    {
        reveal(g_op_copy_b_to_a);
        self.intro("CopyBToA", 1);
        self.copy_register(sreg_x(4, 4), sreg_x(0, 4), sc_x(29), true);
    }

    fn op_swap_b_and_c(&mut self)
        requires old(self).wf(), old(self).cur_frame is Some,
        ensures
            final(self).st() == g_op_swap_b_and_c(old(self).fs(), old(self).st()),
            final(self).cfg == old(self).cfg, final(self).wf(), final(self).cur_frame is Some,
    {
        reveal(g_op_swap_b_and_c);
        self.intro("SwapBAndC", 1);
        let (c_cpy, t1) = sc_x(29).split_register(4);
        self.copy_register(sreg_x(8, 4), c_cpy, t1, false);
        self.copy_register(sreg_x(4, 4), sreg_x(8, 4), t1, true);
        self.copy_register(c_cpy, sreg_x(4, 4), t1, true);
        self.clr_register(c_cpy, t1);
    }

    /// The code for the instruction with opcode `k`.
    pub(crate) fn sam_op(&mut self, k: u8)
        requires
            old(self).wf(),
            old(self).cur_frame is Some,
            k < 34,
        ensures
            final(self).st() == g_sam_op(old(self).fs(), old(self).st(), k as int),
            final(self).cfg == old(self).cfg,
            final(self).wf(),
            final(self).cur_frame is Some,
    {
        if k == 0 {
            self.op_halt();
        } else if k == 1 {
            self.op_set_x();
        } else if k == 2 {
            self.op_set_a();
        } else if k == 3 {
            self.op_read_a_at_b();
        } else if k == 4 {
            self.op_read_x_at_b();
        } else if k == 5 {
            self.op_write_a_at_b();
        } else if k == 6 {
            self.op_write_x_at_b();
        } else if k == 7 {
            self.op_print_char_x();
        } else if k == 8 {
            self.op_stdin_x();
        } else if k == 9 {
            self.op_step_b(true);
        } else if k == 10 {
            self.op_step_b(false);
        } else if k == 11 {
            self.op_print_a();
        } else if k == 12 {
            self.op_call();
        } else if k == 13 {
            self.op_ret();
        } else if k == 14 {
            self.op_jump();
        } else if k == 15 {
            self.op_jump_if_x();
        } else if k == 16 {
            self.op_add_u8_at_b_to_x();
        } else if k == 17 {
            self.op_mul_u8_at_b_to_x();
        } else if k == 18 {
            self.op_add_u32_at_b_to_a();
        } else if k == 19 {
            self.op_mul_u32_at_b_to_a();
        } else if k == 20 {
            self.op_neg_a();
        } else if k == 21 {
            self.op_neg_x();
        } else if k == 22 {
            self.op_move_x_to_a();
        } else if k == 23 {
            self.op_not_x();
        } else if k == 24 {
            self.op_add_const_to_x();
        } else if k == 25 {
            self.op_compare_u8();
        } else if k == 26 {
            self.op_compare_u32();
        } else if k == 27 {
            self.op_div_u8(true);
        } else if k == 28 {
            self.op_div_u32(true);
        } else if k == 29 {
            self.op_div_u8(false);
        } else if k == 30 {
            self.op_div_u32(false);
        } else if k == 31 {
            self.op_copy_a_to_b();
        } else if k == 32 {
            self.op_copy_b_to_a();
        } else {
            self.op_swap_b_and_c();
        }
    }
}

}
