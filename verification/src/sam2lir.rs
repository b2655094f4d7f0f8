//! Compiles a linked SAM program into low-level code for the tape machine: an
//! interpreter of the SAM machine, with the program's bytes on the stack track.
//! The registers of the machine live on the scratch track; to reach the cell
//! that a pointer register names, the whole scratch track is slid along the
//! tape until the current-pointer register equals it.

use crate::cpu::{
    child, g_add_const, g_clr_at, g_clr_register, g_goto, g_loop_while, g_moveadd, g_op, g_op_at, g_step_binregister,
    g_dec_register, g_inc_register, g_pack_bytes, g_unpack_bytes, moves, breg_ok, pack_apart, reg_at, reg_ok,
    Cpu, CpuState, BinRegister, Pos, Register,
    ScratchTrack, Track,
};
use crate::cpu_flow::{
    g_compare_uint_bins, g_cmp_uint_regs, ine_else_in, ine_result, ine_then_in, mm_eq_in, mm_gt_in, mm_lt_in, mm_result, reg_sub,
};
use crate::cpu::{g_copy_auto, g_copy_register, g_set_register, fits_bytes, CpuConfig, TrackId, TrackKind};
use crate::linker::{start_of, CompiledSamProgram};
use crate::lir::{lirs_view, Lir};
use crate::cpu_flow::g_if_nonzero;
use crate::sam::{
    be_bytes, push_u32_to_vec, NUM_OPCODES, OPCODE_ADD_CONST_TO_B, OPCODE_ADD_U32_AT_B_TO_A, OPCODE_ADD_U8_AT_B_TO_X, OPCODE_CALL,
    OPCODE_CMP_U32_AT_B_WITH_A, OPCODE_CMP_U8_AT_B_WITH_X, OPCODE_HALT, OPCODE_MUL_U32_AT_B_TO_A, OPCODE_MUL_U8_AT_B_TO_X,
    OPCODE_READ_A_AT_B, OPCODE_READ_X_AT_B, OPCODE_RET, OPCODE_SET_A_TO_U32_AT_B_DIV_BY_A, OPCODE_SET_A_TO_U32_AT_B_MOD_A,
    OPCODE_SET_X_TO_U8_AT_B_DIV_BY_X, OPCODE_SET_X_TO_U8_AT_B_MOD_X, OPCODE_SUB_CONST_FROM_B, OPCODE_WRITE_A_AT_B,
    OPCODE_WRITE_X_AT_B,
};
use crate::sam_ops::{dreg, g_sam_op, p_atb, p_instr, p_not_halted, p_should_goto_b, p_inc_iptr, r_b, r_cur, r_instr_data, r_iptr, sc,
    spos, sreg, st_ops};
use crate::semantics::Op;
use vstd::prelude::*;

verus! {

/// The code of `shift_frame_untracked(shift, false)`: the head moves by `shift`
/// frames, and the generator keeps its idea of the frame.
pub open spec fn g_frames_shifted(fs: int, s: CpuState, shift: int) -> CpuState {
    CpuState { code: s.code + moves(shift * fs), ..s }
}

/// `if_zero` on `cond` with the branch `el`.
pub open spec fn g_if_zero(fs: int, s: CpuState, cond: Pos, st: ScratchTrack, el: spec_fn(CpuState) -> CpuState) -> CpuState {
    let t = ine_then_in(fs, s, cond, st);
    ine_result(fs, s, cond, st, t, el(ine_else_in(fs, s, cond, st, t)))
}

/// `move_match_cmp_result` on `cmp` with the three branches.
pub open spec fn g_move_match(fs: int, s: CpuState, cmp: Pos, st: ScratchTrack,
    lt: spec_fn(CpuState) -> CpuState, eq: spec_fn(CpuState) -> CpuState, gt: spec_fn(CpuState) -> CpuState) -> CpuState {
    let x = gt(mm_gt_in(fs, s, cmp, st));
    let y = lt(mm_lt_in(fs, s, cmp, st, x));
    let z = eq(mm_eq_in(fs, s, cmp, st, x, y));
    mm_result(fs, s, cmp, st, x, y, z)
}

/// The position of frame `frame` of track `t`.
pub open spec fn tp(t: int, frame: int) -> Pos {
    Pos { frame: frame as isize, track: t as isize }
}

/// One round of sliding `n` cells left by `by` frames: a counter, walking
/// right, carries each cell in front of it `by` frames back.
pub open spec fn g_slide_left_round(fs: int, x: CpuState, t: int, by: int) -> CpuState {
    let counter = tp(t, -1);
    let c1 = g_moveadd(fs, g_moveadd(fs, g_op(x, Op::Dec), tp(t, 0), tp(t, -by)), counter, tp(t, 0));
    CpuState { frame: Some(-1), ..g_goto(fs, c1, tp(t, 0)) }
}

/// One round of sliding `n` cells right by `by` frames, the counter walking left.
pub open spec fn g_slide_right_round(fs: int, x: CpuState, t: int, n: int, by: int) -> CpuState {
    let counter = tp(t, n);
    let c1 = g_moveadd(fs, g_moveadd(fs, g_op(x, Op::Dec), tp(t, n - 1), tp(t, n - 1 + by)), counter, tp(t, n - 1));
    CpuState { frame: Some(n), ..g_goto(fs, c1, tp(t, n - 1)) }
}

/// Moves the cells `i..n` of track `t` one frame left, from the first.
pub open spec fn g_slide_left_1(fs: int, c: CpuState, t: int, i: int, n: int) -> CpuState
    decreases n - i,
{
    if i >= n {
        c
    } else {
        g_slide_left_1(fs, g_moveadd(fs, c, tp(t, i), tp(t, i - 1)), t, i + 1, n)
    }
}

/// Moves the cells `0..=i` of track `t` one frame right, from the last.
pub open spec fn g_slide_right_1(fs: int, c: CpuState, t: int, i: int) -> CpuState
    decreases i + 1,
{
    if i < 0 {
        c
    } else {
        g_slide_right_1(fs, g_moveadd(fs, c, tp(t, i), tp(t, i + 1)), t, i - 1)
    }
}

/// Slides the first `n` cells of track `t` (and the generator's frames with
/// them) `by` frames left.
pub open spec fn g_slide_left(fs: int, c: CpuState, st: ScratchTrack, by: isize) -> CpuState {
    let t = st.track.track_num as int;
    let n = st.left_limit();
    let s1 = if by >= 2 {
        let counter = tp(t, -1);
        let c1 = g_add_const(fs, c, counter, n as u8);
        g_frames_shifted(fs, g_loop_while(fs, c1, counter, |x: CpuState| g_slide_left_round(fs, x, t, by as int)), -n)
    } else {
        g_slide_left_1(fs, c, t, 0, n)
    };
    g_frames_shifted(fs, s1, -(by as int))
}

/// Slides the first `n` cells of track `t` `by` frames right.
pub open spec fn g_slide_right(fs: int, c: CpuState, st: ScratchTrack, by: isize) -> CpuState {
    let t = st.track.track_num as int;
    let n = st.left_limit();
    let s1 = if by >= 2 {
        let counter = tp(t, n);
        let c1 = g_add_const(fs, c, counter, n as u8);
        g_frames_shifted(fs, g_loop_while(fs, c1, counter, |x: CpuState| g_slide_right_round(fs, x, t, n, by as int)), n)
    } else {
        g_slide_right_1(fs, c, t, n - 1)
    };
    g_frames_shifted(fs, s1, by as int)
}

/// What the scratch track has in use: its limit, as an exec value.
fn used_frames(st: ScratchTrack) -> (r: isize)
    requires st.wf(),
    ensures r == st.offset + st.left_limit(),
{
    st.offset + match st.dont_go_left_of {
        Some(l) => l,
        None => 0,
    }
}

/// Whether the scratch track `st` is a plain one: track `t`, no offset, its
/// first `n` frames in use.
pub open spec fn plain_scratch(st: ScratchTrack, n: int) -> bool {
    &&& st.offset == 0
    &&& st.left_limit() == n
    &&& 0 <= st.track.track_num < 7
    &&& 2 <= n <= 1000
}

impl<'c> Cpu<'c> {
    fn slide_left(&mut self, st: ScratchTrack, by: isize)
        requires
            old(self).wf(),
            old(self).cur_frame is Some,
            plain_scratch(st, st.left_limit()),
            st.left_limit() <= 255,
            1 <= by <= 256,
        ensures
            final(self).st() == g_slide_left(old(self).fs(), old(self).st(), st, by),
            final(self).cfg == old(self).cfg,
            final(self).wf(),
            final(self).cur_frame is Some,
    {
        let ghost fs = self.fs();
        let ghost t = st.track.track_num as int;
        let n = used_frames(st);
        let track = st.track;
        if by >= 2 {
            let counter = track.at(-1);
            self.add_const_to_byte(counter, n as u8);
            self.goto(counter);
            let mut c = self.child();
            let ghost c0 = c.st();
            c.dec();
            c.moveadd_byte(track.at(0), track.at(-by));
            c.moveadd_byte(counter, track.at(0));
            c.goto(track.at(0));
            c.now_were_actually_at(counter);
            assert(c.st() == g_slide_left_round(fs, c0, t, by as int));
            self.close_loop_at(counter, c);
            self.shift_frame_untracked(-n, false);
        } else {
            let mut i: isize = 0;
            while i < n
                invariant
                    0 <= i <= n,
                    n == st.left_limit(),
                    plain_scratch(st, n as int),
                    track == st.track,
                    t == track.track_num,
                    self.wf(),
                    self.cur_frame is Some,
                    self.cfg == old(self).cfg,
                    fs == self.fs(),
                    g_slide_left_1(fs, old(self).st(), t, 0, n as int) == g_slide_left_1(fs, self.st(), t, i as int, n as int),
                decreases n - i,
            {
                self.moveadd_byte(track.at(i), track.at(i - 1));
                i = i + 1;
            }
        }
        self.shift_frame_untracked(-by, false);
    }

    fn slide_right(&mut self, st: ScratchTrack, by: isize)
        requires
            old(self).wf(),
            old(self).cur_frame is Some,
            plain_scratch(st, st.left_limit()),
            st.left_limit() <= 255,
            1 <= by <= 256,
        ensures
            final(self).st() == g_slide_right(old(self).fs(), old(self).st(), st, by),
            final(self).cfg == old(self).cfg,
            final(self).wf(),
            final(self).cur_frame is Some,
    {
        let ghost fs = self.fs();
        let ghost t = st.track.track_num as int;
        let n = used_frames(st);
        let track = st.track;
        if by >= 2 {
            let counter = track.at(n);
            self.add_const_to_byte(counter, n as u8);
            self.goto(counter);
            let mut c = self.child();
            let ghost c0 = c.st();
            c.dec();
            c.moveadd_byte(track.at(n - 1), track.at(n - 1 + by));
            c.moveadd_byte(counter, track.at(n - 1));
            c.goto(track.at(n - 1));
            c.now_were_actually_at(counter);
            assert(c.st() == g_slide_right_round(fs, c0, t, n as int, by as int));
            self.close_loop_at(counter, c);
            self.shift_frame_untracked(n, false);
        } else {
            let mut i: isize = n - 1;
            while i >= 0
                invariant
                    -1 <= i < n,
                    n == st.left_limit(),
                    plain_scratch(st, n as int),
                    track == st.track,
                    t == track.track_num,
                    self.wf(),
                    self.cur_frame is Some,
                    self.cfg == old(self).cfg,
                    fs == self.fs(),
                    g_slide_right_1(fs, old(self).st(), t, n - 1) == g_slide_right_1(fs, self.st(), t, i as int),
                decreases i + 1,
            {
                self.moveadd_byte(track.at(i), track.at(i + 1));
                i = i - 1;
            }
        }
        self.shift_frame_untracked(by, false);
    }
}


/// The frames that round `k` of the bitwise walk moves by.
pub open spec fn bit_step(k: isize) -> isize {
    if k == 7 { 128 } else if k == 6 { 64 } else if k == 5 { 32 } else if k == 4 { 16 }
    else if k == 3 { 8 } else if k == 2 { 4 } else if k == 1 { 2 } else { 1 }
}

/// The comment that opens round `k` of the bitwise walk.
pub open spec fn bit_step_text(k: isize) -> Seq<char> {
    if k == 7 { "shift_by_128"@ } else if k == 6 { "shift_by_64"@ } else if k == 5 { "shift_by_32"@ }
    else if k == 4 { "shift_by_16"@ } else if k == 3 { "shift_by_8"@ } else if k == 2 { "shift_by_4"@ }
    else if k == 1 { "shift_by_2"@ } else { "shift_by_1"@ }
}

fn bit_step_of(k: isize) -> (r: (isize, String))
    requires 0 <= k <= 7,
    ensures r.0 == bit_step(k), r.1@ == bit_step_text(k),
{
    if k == 7 { (128, "shift_by_128".to_owned()) } else if k == 6 { (64, "shift_by_64".to_owned()) }
    else if k == 5 { (32, "shift_by_32".to_owned()) } else if k == 4 { (16, "shift_by_16".to_owned()) }
    else if k == 3 { (8, "shift_by_8".to_owned()) } else if k == 2 { (4, "shift_by_4".to_owned()) }
    else if k == 1 { (2, "shift_by_2".to_owned()) } else { (1, "shift_by_1".to_owned()) }
}

/// The cells `off..off + size` of a binary register.
pub open spec fn bsub(r: BinRegister, off: int, size: int) -> BinRegister {
    BinRegister { track: r.track, size: size as isize, offset: (r.offset + off) as isize }
}

/// One step of the walk: compare the pointers `p` and `q`; where they differ,
/// step `q` by one towards `p` and slide the scratch track `by` frames that way,
/// and where they agree, end the loop.
#[verifier::opaque]
pub open spec fn g_walk_step(fs: int, c: CpuState, p: BinRegister, q: BinRegister, by: isize, keep: Pos, res: Pos,
    st2: ScratchTrack) -> CpuState {
    g_move_match(fs, g_compare_uint_bins(fs, c, p.as_register_spec(), q.as_register_spec(), res, st2), res, st2,
        |x: CpuState| g_slide_left(fs, g_step_binregister(fs, x, q, st2, false), st2, by),
        |x: CpuState| g_op_at(fs, x, keep, Op::Dec),
        |x: CpuState| g_slide_right(fs, g_step_binregister(fs, x, q, st2, true), st2, by))
}

/// Round `k` of the bitwise walk, on pointers of `k + 1` bits: their first bits
/// are made equal, moving `2^k` frames per step.
#[verifier::opaque]
pub open spec fn g_walk_round(fs: int, s: CpuState, p: BinRegister, q: BinRegister, k: isize, keep: Pos, res: Pos,
    st2: ScratchTrack) -> CpuState {
    let s1 = g_op_at(fs, g_op(s, Op::Comment(bit_step_text(k))), keep, Op::Inc);
    let ps = bsub(p, 0, p.size - k);
    let qs = bsub(q, 0, q.size - k);
    g_clr_at(fs, g_loop_while(fs, s1, keep, |c: CpuState| g_walk_step(fs, c, ps, qs, bit_step(k), keep, res, st2)), res)
}

/// The rounds `k` down to 0 of the bitwise walk.
pub open spec fn g_walk_from(fs: int, s: CpuState, p: BinRegister, q: BinRegister, k: isize, keep: Pos, res: Pos,
    st2: ScratchTrack) -> CpuState
    decreases k + 1,
{
    if k < 0 {
        s
    } else {
        let s1 = g_walk_round(fs, s, p, q, k, keep, res, st2);
        if k > 0 {
            g_walk_from(fs, s1, bsub(p, p.size - k, k as int), bsub(q, q.size - k, k as int), (k - 1) as isize, keep, res, st2)
        } else {
            s1
        }
    }
}

impl<'c> Cpu<'c> {
    fn walk_lt(&mut self, q: BinRegister, by: isize, t: ScratchTrack)
        requires
            old(self).wf(),
            old(self).cur_frame is Some,
            breg_ok(q),
            plain_scratch(t, t.left_limit()),
            t.left_limit() <= 255,
            1 <= by <= 256,
        ensures
            final(self).st() == g_slide_left(old(self).fs(), g_step_binregister(old(self).fs(), old(self).st(), q, t, false),
                t, by),
            final(self).cfg == old(self).cfg,
            final(self).wf(),
            final(self).cur_frame is Some,
    {
        self.dec_binregister(q, t);
        self.slide_left(t, by);
    }

    fn walk_gt(&mut self, q: BinRegister, by: isize, t: ScratchTrack)
        requires
            old(self).wf(),
            old(self).cur_frame is Some,
            breg_ok(q),
            plain_scratch(t, t.left_limit()),
            t.left_limit() <= 255,
            1 <= by <= 256,
        ensures
            final(self).st() == g_slide_right(old(self).fs(), g_step_binregister(old(self).fs(), old(self).st(), q, t, true),
                t, by),
            final(self).cfg == old(self).cfg,
            final(self).wf(),
            final(self).cur_frame is Some,
    {
        self.inc_binregister(q, t);
        self.slide_right(t, by);
    }

    #[verifier::spinoff_prover]
    fn walk_step(&mut self, p: BinRegister, q: BinRegister, by: isize, keep: Pos, res: Pos, st2: ScratchTrack)
        requires
            old(self).wf(),
            old(self).cur_frame is Some,
            breg_ok(p),
            breg_ok(q),
            p.size == q.size,
            plain_scratch(st2, st2.left_limit()),
            st2.left_limit() <= 255,
            1 <= by <= 256,
            0 <= keep.frame <= 1000,
            0 <= res.frame <= 1000,
            0 <= keep.track < 7,
            0 <= res.track < 7,
        ensures
            final(self).st() == g_walk_step(old(self).fs(), old(self).st(), p, q, by, keep, res, st2),
            final(self).cfg == old(self).cfg,
            final(self).wf(),
            final(self).cur_frame is Some,
    {
        reveal(g_walk_step);
        self.cmp_2_uint_binregisters(p, q, res, st2);
        self.move_match_cmp_result(res, st2,
            |cpu: &mut Cpu<'c>, t: ScratchTrack|
                requires
                    breg_ok(q), plain_scratch(t, t.left_limit()), t.left_limit() <= 255, 1 <= by <= 256,
                    old(cpu).wf(), old(cpu).cur_frame is Some,
                ensures
                    final(cpu).cur_frame is Some,
                    final(cpu).st() == g_slide_left(old(cpu).fs(), g_step_binregister(old(cpu).fs(), old(cpu).st(), q, t, false),
                        t, by),
                    final(cpu).cfg == old(cpu).cfg,
                    final(cpu).wf()
                { cpu.walk_lt(q, by, t); },
            |cpu: &mut Cpu<'c>, t: ScratchTrack|
                requires 0 <= keep.frame <= 1000, 0 <= keep.track < 7, old(cpu).wf(), old(cpu).cur_frame is Some,
                ensures
                    final(cpu).cur_frame is Some,
                    final(cpu).st() == g_op_at(old(cpu).fs(), old(cpu).st(), keep, Op::Dec),
                    final(cpu).cfg == old(cpu).cfg,
                    final(cpu).wf()
                { cpu.dec_at(keep); },
            |cpu: &mut Cpu<'c>, t: ScratchTrack|
                requires
                    breg_ok(q), plain_scratch(t, t.left_limit()), t.left_limit() <= 255, 1 <= by <= 256,
                    old(cpu).wf(), old(cpu).cur_frame is Some,
                ensures
                    final(cpu).cur_frame is Some,
                    final(cpu).st() == g_slide_right(old(cpu).fs(), g_step_binregister(old(cpu).fs(), old(cpu).st(), q, t, true),
                        t, by),
                    final(cpu).cfg == old(cpu).cfg,
                    final(cpu).wf()
                { cpu.walk_gt(q, by, t); });
    }

    #[verifier::spinoff_prover]
    fn walk_round(&mut self, p: BinRegister, q: BinRegister, k: isize, keep: Pos, res: Pos, st2: ScratchTrack)
        requires
            old(self).wf(),
            old(self).cur_frame is Some,
            0 <= k <= 7,
            p.size == k + 1,
            q.size == k + 1,
            breg_ok(p),
            breg_ok(q),
            plain_scratch(st2, st2.left_limit()),
            st2.left_limit() <= 255,
            0 <= keep.frame <= 1000,
            0 <= res.frame <= 1000,
            0 <= keep.track < 7,
            0 <= res.track < 7,
        ensures
            final(self).st() == g_walk_round(old(self).fs(), old(self).st(), p, q, k, keep, res, st2),
            final(self).cfg == old(self).cfg,
            final(self).wf(),
            final(self).cur_frame is Some,
    {
        reveal(g_walk_round);
        let ghost fs = self.fs();
        let (by, text) = bit_step_of(k);
        self.comment(text);
        self.inc_at(keep);
        let ps = p.subview(0, p.size - k);
        let qs = q.subview(0, q.size - k);
        self.goto(keep);
        let mut c = self.child();
        let ghost c0 = c.st();
        c.walk_step(ps, qs, by, keep, res, st2);
        assert(c.st() == g_walk_step(fs, c0, bsub(p, 0, p.size - k), bsub(q, 0, q.size - k), bit_step(k), keep, res, st2));
        self.close_loop_at(keep, c);
        self.clr_at(res);
    }

    /// Walks the scratch track along the tape until the 8-bit pointer `cur`
    /// equals `ptr`, bit by bit from the highest: round `k` moves `2^k` frames
    /// per step.
    #[verifier::spinoff_prover]
    fn goto_ptr_binregister(&mut self, ptr: BinRegister, cur: BinRegister, st: ScratchTrack)
        requires
            old(self).wf(),
            old(self).cur_frame is Some,
            ptr.size == 8,
            cur.size == 8,
            breg_ok(ptr),
            breg_ok(cur),
            plain_scratch(st, st.left_limit()),
            st.left_limit() <= 250,
        ensures
            final(self).st() == g_walk_from(old(self).fs(), old(self).st(), ptr, cur, 7, st.first(), st.first().shifted(1),
                st.spec_split(2)),
            final(self).cfg == old(self).cfg,
            final(self).wf(),
            final(self).cur_frame is Some,
    {
        let ghost fs = self.fs();
        let (two, st2) = st.split_2();
        let keep = two[0];
        let res = two[1];
        let mut p = ptr;
        let mut q = cur;
        let mut k: isize = 7;
        while k >= 0
            invariant
                -1 <= k <= 7,
                k >= 0 ==> p.size == k + 1 && q.size == k + 1,
                breg_ok(p),
                breg_ok(q),
                keep == st.first(),
                res == st.first().shifted(1),
                st2 == st.spec_split(2),
                plain_scratch(st, st.left_limit()),
                st.left_limit() <= 250,
                self.wf(),
                self.cur_frame is Some,
                self.cfg == old(self).cfg,
                fs == self.fs(),
                g_walk_from(fs, old(self).st(), ptr, cur, 7, keep, res, st2) == g_walk_from(fs, self.st(), p, q, k, keep, res, st2),
            decreases k + 1,
        {
            self.walk_round(p, q, k, keep, res, st2);
            if k > 0 {
                p = p.subview(p.size - k, k);
                q = q.subview(q.size - k, k);
            }
            k = k - 1;
        }
    }
}


/// One step of the bytewise walk on the pointers' high bytes `p` and `q`: as
/// `g_walk_step`, moving 256 frames per step.
#[verifier::opaque]
pub open spec fn g_byte_step(fs: int, c: CpuState, p: Register, q: Register, keep: Pos, res: Pos, st2: ScratchTrack) -> CpuState {
    g_move_match(fs, g_cmp_uint_regs(fs, c, p, q, res, st2), res, st2,
        |x: CpuState| g_slide_left(fs, g_dec_register(fs, x, q, st2), st2, 256),
        |x: CpuState| g_op_at(fs, x, keep, Op::Dec),
        |x: CpuState| g_slide_right(fs, g_inc_register(fs, x, q, st2), st2, 256))
}

/// The binary register of `size` cells at the start of the scratch track `st`.
pub open spec fn scratch_breg(st: ScratchTrack, size: int) -> BinRegister {
    BinRegister { offset: (st.left_limit() - st.offset) as isize, size: size as isize, track: st.track }
}

/// The first part of `goto_ptr_register`: the high three bytes of `cur` are
/// made equal to those of `ptr`, moving 256 frames per step.
#[verifier::opaque]
pub open spec fn g_goto_bytes(fs: int, s: CpuState, ptr: Register, cur: Register, st: ScratchTrack) -> CpuState {
    let keep = st.first();
    let res = st.first().shifted(1);
    let st2 = st.spec_split(2);
    let s1 = g_op_at(fs, g_op(s, Op::Comment("shift_by_256"@)), keep, Op::Inc);
    g_clr_at(fs, g_loop_while(fs, s1, keep,
        |c: CpuState| g_byte_step(fs, c, reg_sub(ptr, 0, 3), reg_sub(cur, 0, 3), keep, res, st2)), res)
}

/// The second part: the low bytes are unpacked into bits, walked bit by bit,
/// and the low byte of `cur` is packed back.
#[verifier::opaque]
pub open spec fn g_goto_bits(fs: int, s: CpuState, ptr: Register, cur: Register, st: ScratchTrack) -> CpuState {
    let st2 = st.spec_split(2);
    let p1 = reg_sub(ptr, 3, 1);
    let c1 = reg_sub(cur, 3, 1);
    let pu = scratch_breg(st2, 8);
    let st3 = st2.spec_split(8);
    let cu = scratch_breg(st3, 8);
    let st4 = st3.spec_split(8);
    let s3 = g_unpack_bytes(fs, g_unpack_bytes(fs, s, p1, pu, st3, 1), c1, cu, st4, 1);
    let s4 = g_walk_from(fs, s3, pu, cu, 7, st4.first(), st4.first().shifted(1), st4.spec_split(2));
    let s5 = g_pack_bytes(fs, s4, cu, c1, st4, true, 1);
    g_clr_register(fs, g_clr_register(fs, s5, cu.as_register_spec(), st4), pu.as_register_spec(), st4)
}

/// `goto_ptr_register`: the scratch track is walked along the tape until the
/// 4-byte pointer `cur` equals `ptr` (first by 256 frames on the high bytes,
/// then bit by bit on the low byte), after which the cell `ptr` names is at frame 0.
pub open spec fn g_goto_ptr(fs: int, s: CpuState, ptr: Register, cur: Register, st: ScratchTrack) -> CpuState {
    g_goto_bits(fs, g_goto_bytes(fs, s, ptr, cur, st), ptr, cur, st)
}

impl<'c> Cpu<'c> {
    fn byte_walk_lt(&mut self, q: Register, t: ScratchTrack)
        requires
            old(self).wf(),
            old(self).cur_frame is Some,
            reg_ok(q),
            plain_scratch(t, t.left_limit()),
            t.left_limit() <= 255,
        ensures
            final(self).st() == g_slide_left(old(self).fs(), g_dec_register(old(self).fs(), old(self).st(), q, t), t, 256),
            final(self).cfg == old(self).cfg,
            final(self).wf(),
            final(self).cur_frame is Some,
    {
        self.dec_register(q, t);
        self.slide_left(t, 256);
    }

    fn byte_walk_gt(&mut self, q: Register, t: ScratchTrack)
        requires
            old(self).wf(),
            old(self).cur_frame is Some,
            reg_ok(q),
            plain_scratch(t, t.left_limit()),
            t.left_limit() <= 255,
        ensures
            final(self).st() == g_slide_right(old(self).fs(), g_inc_register(old(self).fs(), old(self).st(), q, t), t, 256),
            final(self).cfg == old(self).cfg,
            final(self).wf(),
            final(self).cur_frame is Some,
    {
        self.inc_register(q, t);
        self.slide_right(t, 256);
    }

    #[verifier::spinoff_prover]
    fn byte_step(&mut self, p: Register, q: Register, keep: Pos, res: Pos, st2: ScratchTrack)
        requires
            old(self).wf(),
            old(self).cur_frame is Some,
            reg_ok(p),
            reg_ok(q),
            p.size == q.size,
            plain_scratch(st2, st2.left_limit()),
            st2.left_limit() <= 255,
            0 <= keep.frame <= 1000,
            0 <= res.frame <= 1000,
            0 <= keep.track < 7,
            0 <= res.track < 7,
        ensures
            final(self).st() == g_byte_step(old(self).fs(), old(self).st(), p, q, keep, res, st2),
            final(self).cfg == old(self).cfg,
            final(self).wf(),
            final(self).cur_frame is Some,
    {
        reveal(g_byte_step);
        self.cmp_2_uint_registers(p, q, res, st2);
        self.move_match_cmp_result(res, st2,
            |cpu: &mut Cpu<'c>, t: ScratchTrack|
                requires
                    reg_ok(q), plain_scratch(t, t.left_limit()), t.left_limit() <= 255,
                    old(cpu).wf(), old(cpu).cur_frame is Some,
                ensures
                    final(cpu).cur_frame is Some,
                    final(cpu).st() == g_slide_left(old(cpu).fs(), g_dec_register(old(cpu).fs(), old(cpu).st(), q, t), t, 256),
                    final(cpu).cfg == old(cpu).cfg,
                    final(cpu).wf()
                { cpu.byte_walk_lt(q, t); },
            |cpu: &mut Cpu<'c>, t: ScratchTrack|
                requires 0 <= keep.frame <= 1000, 0 <= keep.track < 7, old(cpu).wf(), old(cpu).cur_frame is Some,
                ensures
                    final(cpu).cur_frame is Some,
                    final(cpu).st() == g_op_at(old(cpu).fs(), old(cpu).st(), keep, Op::Dec),
                    final(cpu).cfg == old(cpu).cfg,
                    final(cpu).wf()
                { cpu.dec_at(keep); },
            |cpu: &mut Cpu<'c>, t: ScratchTrack|
                requires
                    reg_ok(q), plain_scratch(t, t.left_limit()), t.left_limit() <= 255,
                    old(cpu).wf(), old(cpu).cur_frame is Some,
                ensures
                    final(cpu).cur_frame is Some,
                    final(cpu).st() == g_slide_right(old(cpu).fs(), g_inc_register(old(cpu).fs(), old(cpu).st(), q, t), t, 256),
                    final(cpu).cfg == old(cpu).cfg,
                    final(cpu).wf()
                { cpu.byte_walk_gt(q, t); });
    }

    #[verifier::spinoff_prover]
    fn goto_ptr_bytes(&mut self, ptr: Register, cur: Register, st: ScratchTrack)
        requires
            old(self).wf(),
            old(self).cur_frame is Some,
            ptr.size == 4,
            cur.size == 4,
            ptr.track == st.track,
            cur.track == st.track,
            0 <= ptr.offset <= 1000,
            0 <= cur.offset <= 1000,
            plain_scratch(st, st.left_limit()),
            st.left_limit() <= 200,
        ensures
            final(self).st() == g_goto_bytes(old(self).fs(), old(self).st(), ptr, cur, st),
            final(self).cfg == old(self).cfg,
            final(self).wf(),
            final(self).cur_frame is Some,
    {
        reveal(g_goto_bytes);
        let ghost fs = self.fs();
        let (two, st2) = st.split_2();
        let keep = two[0];
        let res = two[1];
        self.comment("shift_by_256".to_owned());
        self.inc_at(keep);
        let ps = ptr.subview(0, 3);
        let qs = cur.subview(0, 3);
        self.goto(keep);
        let mut c = self.child();
        let ghost c0 = c.st();
        c.byte_step(ps, qs, keep, res, st2);
        assert(c.st() == g_byte_step(fs, c0, reg_sub(ptr, 0, 3), reg_sub(cur, 0, 3), keep, res, st2));
        self.close_loop_at(keep, c);
        self.clr_at(res);
    }

    #[verifier::spinoff_prover]
    fn goto_ptr_bits(&mut self, ptr: Register, cur: Register, st: ScratchTrack)
        requires
            old(self).wf(),
            old(self).cur_frame is Some,
            ptr.size == 4,
            cur.size == 4,
            ptr.track == st.track,
            cur.track == st.track,
            0 <= ptr.offset <= 1000,
            0 <= cur.offset <= 1000,
            plain_scratch(st, st.left_limit()),
            st.left_limit() <= 200,
        ensures
            final(self).st() == g_goto_bits(old(self).fs(), old(self).st(), ptr, cur, st),
            final(self).cfg == old(self).cfg,
            final(self).wf(),
            final(self).cur_frame is Some,
    {
        reveal(g_goto_bits);
        let st2 = st.get_split_scratch(2);
        let p1 = ptr.subview(3, 1);
        let c1 = cur.subview(3, 1);
        let (pu, st3) = st2.split_binregister(8);
        self.unpack_register(p1, pu, st3, false);
        let (cu, st4) = st3.split_binregister(8);
        self.unpack_register(c1, cu, st4, false);
        self.goto_ptr_binregister(pu, cu, st4);
        assert(pack_apart(cu, st4)) by {
            assert forall|i: int| 0 <= i < cu.size implies {
                &&& #[trigger] reg_at(cu.as_register_spec(), i) != st4.first()
                &&& reg_at(cu.as_register_spec(), i) != st4.first().shifted(1)
            } by {
                assert(reg_at(cu.as_register_spec(), i).frame == st3.left_limit() + i);
            }
        }
        self.pack_binregister(cu, c1, st4, true);
        self.clr_binregister(cu, st4);
        self.clr_binregister(pu, st4);
    }

    /// Walks the scratch track along the tape until the pointer register `cur`
    /// equals `ptr` (both of 4 bytes, on the scratch track below its used frames).
    fn goto_ptr_register(&mut self, ptr: Register, cur: Register, st: ScratchTrack)
        requires
            old(self).wf(),
            old(self).cur_frame is Some,
            ptr.size == 4,
            cur.size == 4,
            ptr.track == st.track,
            cur.track == st.track,
            0 <= ptr.offset <= 1000,
            0 <= cur.offset <= 1000,
            plain_scratch(st, st.left_limit()),
            st.left_limit() <= 200,
        ensures
            final(self).st() == g_goto_ptr(old(self).fs(), old(self).st(), ptr, cur, st),
            final(self).cfg == old(self).cfg,
            final(self).wf(),
            final(self).cur_frame is Some,
    {
        self.goto_ptr_bytes(ptr, cur, st);
        self.goto_ptr_bits(ptr, cur, st);
    }
}


/// Whether the instruction with opcode `op` works at the cell `b` points at,
/// so that the interpreter walks there before running it.
pub open spec fn op_uses_b(op: int) -> bool {
    ||| op == OPCODE_READ_A_AT_B
    ||| op == OPCODE_READ_X_AT_B
    ||| op == OPCODE_WRITE_A_AT_B
    ||| op == OPCODE_WRITE_X_AT_B
    ||| op == OPCODE_ADD_CONST_TO_B
    ||| op == OPCODE_SUB_CONST_FROM_B
    ||| op == OPCODE_CALL
    ||| op == OPCODE_RET
    ||| op == OPCODE_ADD_U8_AT_B_TO_X
    ||| op == OPCODE_MUL_U8_AT_B_TO_X
    ||| op == OPCODE_ADD_U32_AT_B_TO_A
    ||| op == OPCODE_MUL_U32_AT_B_TO_A
    ||| op == OPCODE_CMP_U8_AT_B_WITH_X
    ||| op == OPCODE_CMP_U32_AT_B_WITH_A
    ||| op == OPCODE_SET_X_TO_U8_AT_B_DIV_BY_X
    ||| op == OPCODE_SET_A_TO_U32_AT_B_DIV_BY_A
    ||| op == OPCODE_SET_X_TO_U8_AT_B_MOD_X
    ||| op == OPCODE_SET_A_TO_U32_AT_B_MOD_A
}

fn uses_b(op: u8) -> (r: bool)
    ensures r == op_uses_b(op as int),
{
    op == OPCODE_READ_A_AT_B || op == OPCODE_READ_X_AT_B || op == OPCODE_WRITE_A_AT_B || op == OPCODE_WRITE_X_AT_B
        || op == OPCODE_ADD_CONST_TO_B || op == OPCODE_SUB_CONST_FROM_B || op == OPCODE_CALL || op == OPCODE_RET
        || op == OPCODE_ADD_U8_AT_B_TO_X || op == OPCODE_MUL_U8_AT_B_TO_X || op == OPCODE_ADD_U32_AT_B_TO_A
        || op == OPCODE_MUL_U32_AT_B_TO_A || op == OPCODE_CMP_U8_AT_B_WITH_X || op == OPCODE_CMP_U32_AT_B_WITH_A
        || op == OPCODE_SET_X_TO_U8_AT_B_DIV_BY_X || op == OPCODE_SET_A_TO_U32_AT_B_DIV_BY_A
        || op == OPCODE_SET_X_TO_U8_AT_B_MOD_X || op == OPCODE_SET_A_TO_U32_AT_B_MOD_A
}

/// The largest opcode for which `op_uses_b` holds.
pub open spec fn last_b_op() -> int {
    OPCODE_SET_A_TO_U32_AT_B_MOD_A as int
}

/// Setting the flag `p_should_goto_b` from a copy of the opcode in `p_instr`
/// that counts down from opcode `cur`: where it is zero at an opcode that uses
/// `b`, the flag is set.
pub open spec fn g_flags_from(fs: int, s: CpuState, cur: int) -> CpuState
    decreases last_b_op() - cur,
{
    if cur > last_b_op() || cur < 0 {
        s
    } else {
        let s1 = if op_uses_b(cur) {
            g_if_zero(fs, s, p_instr(), sc(24), |c: CpuState| g_op_at(fs, c, p_should_goto_b(), Op::Inc))
        } else {
            s
        };
        if cur < last_b_op() {
            g_flags_from(fs, g_op_at(fs, s1, p_instr(), Op::Dec), cur + 1)
        } else {
            s1
        }
    }
}

/// The dispatch on the opcode in `p_instr`, from opcode `k` on: the code of
/// each instruction runs where the copy, counted down once per opcode, is zero.
pub open spec fn g_cases_from(fs: int, s: CpuState, k: int) -> CpuState
    decreases 34 - k,
{
    if k >= 34 || k < 0 {
        s
    } else {
        let s1 = g_if_zero(fs, s, p_instr(), st_ops(), |c: CpuState| g_sam_op(fs, c, k));
        g_cases_from(fs, g_op_at(fs, s1, p_instr(), Op::Dec), k + 1)
    }
}

/// The first part of a round of the interpreter: walk to the instruction,
/// find out whether it uses `b`, and copy its opcode and data.
#[verifier::opaque]
pub open spec fn g_round_fetch(fs: int, s: CpuState) -> CpuState {
    let s1 = g_goto_ptr(fs, s, r_iptr(), r_cur(), sc(22));
    let s2 = g_op(g_copy_auto(fs, s1, p_atb(), p_instr(), sc(24)), Op::Comment("Calculate if we should go to b"@));
    let s3 = g_clr_at(fs, g_flags_from(fs, s2, 0), p_instr());
    let s4 = g_copy_auto(fs, g_op(s3, Op::Comment("Copy instruction data"@)), p_atb(), p_instr(), sc(24));
    g_copy_register(fs, s4, dreg(1, 4), r_instr_data(), sc(28), false)
}

/// The second part: walk to `b` where the instruction uses it.
#[verifier::opaque]
pub open spec fn g_round_goto_b(fs: int, s: CpuState) -> CpuState {
    g_if_nonzero(fs, g_op(s, Op::Comment("Go to b (if needed)"@)), p_should_goto_b(), sc(28),
        |c: CpuState| g_goto_ptr(fs, g_op_at(fs, c, p_should_goto_b(), Op::Dec), r_b(), r_cur(), sc(28)))
}

/// The last part: move the instruction pointer on, and clear the copies.
#[verifier::opaque]
pub open spec fn g_round_end(fs: int, s: CpuState) -> CpuState {
    let s1 = g_loop_while(fs, s, p_inc_iptr(), |c: CpuState| g_inc_register(fs, g_op(c, Op::Dec), r_iptr(), st_ops()));
    g_clr_register(fs, g_clr_at(fs, s1, p_instr()), r_instr_data(), st_ops())
}

/// One round of the interpreter: fetch, go to `b` if needed, run the
/// instruction, and move on.
pub open spec fn g_sam_round(fs: int, s: CpuState) -> CpuState {
    g_round_end(fs, g_cases_from(fs, g_round_goto_b(fs, g_round_fetch(fs, s)), 0))
}

/// The cells that the interpreter starts with on the stack track: the
/// program, a halt instruction, and the address of that halt (where the
/// outermost return goes).
pub open spec fn sam_cells(bytes: Seq<u8>) -> Seq<u8> {
    bytes.push(OPCODE_HALT) + be_bytes(bytes.len() as u32)
}

/// Adds the first `i` cells to the stack track, from frame 0.
pub open spec fn g_load_cells(fs: int, s: CpuState, cells: Seq<u8>, i: int) -> CpuState
    decreases i,
{
    if i <= 0 {
        s
    } else {
        g_add_const(fs, g_load_cells(fs, s, cells, i - 1), Pos { frame: (i - 1) as isize, track: 0 }, cells[i - 1])
    }
}

/// The code of `sam2lir` for a program of `bytes` whose `main` starts at `start`.
pub open spec fn g_sam2lir(bytes: Seq<u8>, start: u32) -> Seq<Op> {
    let fs = 2;
    let s0 = CpuState { track: 0, frame: Some(0), code: moves(6) };
    let cells = sam_cells(bytes);
    let s1 = g_load_cells(fs, g_frames_shifted(fs, s0, 5), cells, cells.len() as int);
    let s2 = g_set_register(fs, g_set_register(fs, s1, r_iptr(), start as nat, 0), r_b(), (bytes.len() + 1) as nat, 0);
    let s3 = g_op(g_op_at(fs, s2, p_not_halted(), Op::Inc), Op::Comment("Main loop"@));
    let s4 = g_loop_while(fs, s3, p_not_halted(), |c: CpuState| g_sam_round(fs, c));
    g_clr_at(fs, s4, p_not_halted()).code
}

/// The tracks of the tape for the interpreter: program memory (the stack
/// track) on the even cells, the registers and temporary data (the scratch
/// track) on the odd cells.
pub open spec fn sam_tracks() -> Seq<(TrackId, TrackKind)> {
    seq![
        (TrackId::Stack, TrackKind::Data(Track { track_num: 0 })),
        (TrackId::Scratch1, TrackKind::Scratch(ScratchTrack { track: Track { track_num: 1 }, offset: 0, dont_go_left_of: None })),
    ]
}

proof fn lemma_fits_u32(v: nat)
    requires v < 0x1_0000_0000,
    ensures fits_bytes(v, 4),
{
    reveal_with_fuel(fits_bytes, 5);
    let v1 = v / 256;
    let v2 = v1 / 256;
    let v3 = v2 / 256;
    assert(v1 < 0x100_0000) by (nonlinear_arith) requires v < 0x1_0000_0000, v1 == v / 256;
    assert(v2 < 0x1_0000) by (nonlinear_arith) requires v1 < 0x100_0000, v2 == v1 / 256;
    assert(v3 < 0x100) by (nonlinear_arith) requires v2 < 0x1_0000, v3 == v2 / 256;
    assert(v3 / 256 == 0) by (nonlinear_arith) requires v3 < 0x100;
}

impl<'c> Cpu<'c> {
    fn flag_if_zero(&mut self)
        requires old(self).wf(), old(self).cur_frame is Some,
        ensures
            final(self).st() == g_if_zero(old(self).fs(), old(self).st(), p_instr(), sc(24),
                |c: CpuState| g_op_at(old(self).fs(), c, p_should_goto_b(), Op::Inc)),
            final(self).cfg == old(self).cfg,
            final(self).wf(),
            final(self).cur_frame is Some,
    {
        let ghost fs = self.fs();
        let ghost s0 = self.st();
        self.if_zero(spos_at(23), scratch_at(24),
            |cpu: &mut Cpu<'c>, t: ScratchTrack|
                requires old(cpu).wf(), old(cpu).cur_frame is Some,
                ensures
                    final(cpu).cur_frame is Some,
                    final(cpu).st() == g_op_at(old(cpu).fs(), old(cpu).st(), p_should_goto_b(), Op::Inc),
                    final(cpu).cfg == old(cpu).cfg,
                    final(cpu).wf()
                { cpu.inc_at(spos_at(22)); });
    }

    fn sam_case(&mut self, k: u8)
        requires old(self).wf(), old(self).cur_frame is Some, k < 34,
        ensures
            final(self).st() == g_op_at(old(self).fs(),
                g_if_zero(old(self).fs(), old(self).st(), p_instr(), st_ops(), |c: CpuState| g_sam_op(old(self).fs(), c, k as int)),
                p_instr(), Op::Dec),
            final(self).cfg == old(self).cfg,
            final(self).wf(),
            final(self).cur_frame is Some,
    {
        self.if_zero(spos_at(23), scratch_at(29),
            |cpu: &mut Cpu<'c>, t: ScratchTrack|
                requires k < 34, old(cpu).wf(), old(cpu).cur_frame is Some,
                ensures
                    final(cpu).cur_frame is Some,
                    final(cpu).st() == g_sam_op(old(cpu).fs(), old(cpu).st(), k as int),
                    final(cpu).cfg == old(cpu).cfg,
                    final(cpu).wf()
                { cpu.sam_op(k); });
        self.dec_at(spos_at(23));
    }

    #[verifier::spinoff_prover]
    fn round_fetch(&mut self)
        requires old(self).wf(), old(self).cur_frame is Some,
        ensures
            final(self).st() == g_round_fetch(old(self).fs(), old(self).st()),
            final(self).cfg == old(self).cfg,
            final(self).wf(),
            final(self).cur_frame is Some,
    {
        reveal(g_round_fetch);
        let ghost fs = self.fs();
        self.goto_ptr_register(sreg_at(13, 4), sreg_at(17, 4), scratch_at(22));
        let instr = spos_at(23);
        let stack = Track { track_num: 0 };
        self.copy_byte_autoscratch(stack.at(0), instr, scratch_at(24));
        self.comment("Calculate if we should go to b".to_owned());
        let ghost s2 = self.st();
        let mut cur: u8 = 0;
        while cur < OPCODE_SET_A_TO_U32_AT_B_MOD_A
            invariant
                0 <= cur <= last_b_op(),
                instr == p_instr(),
                self.wf(),
                self.cur_frame is Some,
                self.cfg == old(self).cfg,
                fs == self.fs(),
                g_flags_from(fs, s2, 0) == g_flags_from(fs, self.st(), cur as int),
            decreases last_b_op() - cur,
        {
            if uses_b(cur) {
                self.flag_if_zero();
            }
            self.dec_at(instr);
            cur = cur + 1;
        }
        if uses_b(cur) {
            self.flag_if_zero();
        }
        self.clr_at(instr);
        self.comment("Copy instruction data".to_owned());
        self.copy_byte_autoscratch(stack.at(0), instr, scratch_at(24));
        self.copy_register(stack.view_register_at(1, 4), sreg_at(24, 4), scratch_at(28), false);
    }

    #[verifier::spinoff_prover]
    fn round_goto_b(&mut self)
        requires old(self).wf(), old(self).cur_frame is Some,
        ensures
            final(self).st() == g_round_goto_b(old(self).fs(), old(self).st()),
            final(self).cfg == old(self).cfg,
            final(self).wf(),
            final(self).cur_frame is Some,
    {
        reveal(g_round_goto_b);
        self.comment("Go to b (if needed)".to_owned());
        self.if_nonzero(spos_at(22), scratch_at(28),
            |cpu: &mut Cpu<'c>, t: ScratchTrack|
                requires t == sc(28), old(cpu).wf(), old(cpu).cur_frame is Some,
                ensures
                    final(cpu).cur_frame is Some,
                    final(cpu).st() == g_goto_ptr(old(cpu).fs(), g_op_at(old(cpu).fs(), old(cpu).st(), p_should_goto_b(), Op::Dec),
                        r_b(), r_cur(), t),
                    final(cpu).cfg == old(cpu).cfg,
                    final(cpu).wf()
                {
                    cpu.dec_at(spos_at(22));
                    cpu.goto_ptr_register(sreg_at(4, 4), sreg_at(17, 4), t);
                });
    }

    #[verifier::spinoff_prover]
    fn round_cases(&mut self)
        requires old(self).wf(), old(self).cur_frame is Some,
        ensures
            final(self).st() == g_cases_from(old(self).fs(), old(self).st(), 0),
            final(self).cfg == old(self).cfg,
            final(self).wf(),
            final(self).cur_frame is Some,
    {
        let ghost fs = self.fs();
        let ghost s0 = self.st();
        let mut k: u8 = 0;
        while k < NUM_OPCODES
            invariant
                0 <= k <= 34,
                self.wf(),
                self.cur_frame is Some,
                self.cfg == old(self).cfg,
                fs == self.fs(),
                g_cases_from(fs, s0, 0) == g_cases_from(fs, self.st(), k as int),
            decreases 34 - k,
        {
            self.sam_case(k);
            k = k + 1;
        }
    }

    #[verifier::spinoff_prover]
    fn round_end(&mut self)
        requires old(self).wf(), old(self).cur_frame is Some,
        ensures
            final(self).st() == g_round_end(old(self).fs(), old(self).st()),
            final(self).cfg == old(self).cfg,
            final(self).wf(),
            final(self).cur_frame is Some,
    {
        reveal(g_round_end);
        let ghost fs = self.fs();
        let inc_iptr = spos_at(28);
        self.goto(inc_iptr);
        let mut c = self.child();
        let ghost c0 = c.st();
        c.dec();
        c.inc_register(sreg_at(13, 4), scratch_at(29));
        assert(c.st() == g_inc_register(fs, g_op(c0, Op::Dec), r_iptr(), st_ops()));
        self.close_loop_at(inc_iptr, c);
        self.clr_at(spos_at(23));
        self.clr_register(sreg_at(24, 4), scratch_at(29));
    }

    fn sam_round(&mut self)
        requires old(self).wf(), old(self).cur_frame is Some,
        ensures
            final(self).st() == g_sam_round(old(self).fs(), old(self).st()),
            final(self).cfg == old(self).cfg,
            final(self).wf(),
            final(self).cur_frame is Some,
    {
        self.round_fetch();
        self.round_goto_b();
        self.round_cases();
        self.round_end();
    }
}

fn sreg_at(offset: isize, size: isize) -> (r: Register)
    ensures r == sreg(offset as int, size as int),
{
    Register { track: Track { track_num: 1 }, size, offset }
}

fn spos_at(frame: isize) -> (r: Pos)
    ensures r == spos(frame as int),
{
    Pos { frame, track: 1 }
}

fn scratch_at(n: isize) -> (r: ScratchTrack)
    ensures r == sc(n as int),
{
    ScratchTrack { track: Track { track_num: 1 }, offset: 0, dont_go_left_of: Some(n) }
}


/// Compiles the linked program into low-level code for an interpreter of the
/// SAM machine on the tape, and the configuration of the tape: the program's
/// bytes, a halt instruction and the address of that halt are put on the
/// stack track; the instruction pointer starts at `main`, `b` at the address
/// after the halt; and the interpreter runs rounds until a halt clears its flag.
/// The program, with its halt and the address after it, must lie within the
/// frames that the code generator addresses: cell indices (frame times the
/// frame size, plus the track) are kept within a 32-bit `isize`, which leaves
/// frames below `0x40_0000`, less room for the stack above the program.
pub fn sam2lir(prog: CompiledSamProgram) -> (r: (Vec<Lir>, CpuConfig))
    requires
        start_of(prog.fn_start_poss@, "main"@) is Some,
        prog.bytes@.len() + 5 <= 0x3F_0000,
    ensures
        lirs_view(r.0@) == g_sam2lir(prog.bytes@, start_of(prog.fn_start_poss@, "main"@)->0),
        r.1.tracks@ == sam_tracks(),
{
    let ghost bytes = prog.bytes@;
    let initial_instr_ptr = prog.fn_start_pos(&"main".to_owned()).unwrap();
    let mut cells = prog.bytes;
    let hlt = cells.len() as u32;
    cells.push(OPCODE_HALT);
    let initial_b = cells.len() as u32;
    push_u32_to_vec(&mut cells, hlt);
    assert(cells@ == sam_cells(bytes));

    let mut cfg = CpuConfig::new();
    let data_track = cfg.add_data_track(TrackId::Stack);
    let scratch_track = cfg.add_scratch_track(TrackId::Scratch1);
    assert(cfg.tracks@ == sam_tracks());
    assert(scratch_track.track.track_num == 1);

    let mut cpu = Cpu::new(&cfg);
    cpu.shift_frame_untracked(5, false);
    let ghost s1 = cpu.st();
    let mut i: usize = 0;
    while i < cells.len()
        invariant
            0 <= i <= cells@.len(),
            cells@.len() <= 0x3F_0000,
            data_track == (Track { track_num: 0 }),
            cpu.wf(),
            cpu.cur_frame is Some,
            cpu.cfg == &cfg,
            cpu.fs() == 2,
            cpu.st() == g_load_cells(2, s1, cells@, i as int),
        decreases cells@.len() - i,
    {
        cpu.add_const_to_byte(data_track.at(i as isize), cells[i]);
        i = i + 1;
    }
    proof {
        lemma_fits_u32(initial_instr_ptr as nat);
        lemma_fits_u32(initial_b as nat);
    }
    cpu.set_register(sreg_at(13, 4), initial_instr_ptr as u64);
    cpu.set_register(sreg_at(4, 4), initial_b as u64);

    let not_halted = spos_at(21);
    cpu.inc_at(not_halted);
    cpu.comment("Main loop".to_owned());
    cpu.goto(not_halted);
    let mut c = cpu.child();
    c.sam_round();
    cpu.close_loop_at(not_halted, c);
    cpu.clr_at(not_halted);
    (cpu.into_ops(), cfg)
}

}
