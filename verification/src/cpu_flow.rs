//! Control flow for the code generator: loops and branches whose bodies are
//! generated by callbacks.

use crate::cpu::{
    child, g_add_const, g_clr, g_clr_at, g_clr_register, g_print_text, g_set_byte, g_copy_auto, g_copy_byte, g_loop_while, g_goto, g_if_nonzero_else, g_moveadd, g_op, g_op_at,
    g_movesub, g_sentinel, g_sub_auto, g_sub_const, mid, near, pos_ok, reg_at, reg_ok, scratch_ok, scratch_room, Cpu, CpuState,
    BinRegister, Pos, Register, ScratchTrack,
};
use crate::semantics::Op;
use vstd::prelude::*;

verus! {

impl<'c> Cpu<'c> {
    /// Goes to `at` and loops while the cell there is not zero; the body is
    /// generated by `f`, and goes back to `at` at its end.
    #[verifier::spinoff_prover]
    pub fn loop_while(&mut self, at: Pos, f: impl FnOnce(&mut Cpu<'c>))
        requires
            old(self).can_goto(at),
            forall|x: &mut Cpu<'c>| x.cfg == old(self).cfg && x.st() == child(g_goto(old(self).fs(), old(self).st(), at))
                ==> #[trigger] call_requires(f, (x,)),
            forall|x: &mut Cpu<'c>| x.cfg == old(self).cfg && x.st() == child(g_goto(old(self).fs(), old(self).st(), at))
                && #[trigger] call_ensures(f, (x,), ()) ==> final(x).cfg == x.cfg && final(x).wf() && final(x).cur_frame is Some,
        ensures
            exists|x: &mut Cpu<'c>| x.cfg == old(self).cfg && x.st() == child(g_goto(old(self).fs(), old(self).st(), at))
                && #[trigger] call_ensures(f, (x,), ())
                && final(self).st() == g_op(g_goto(old(self).fs(), old(self).st(), at),
                    Op::Loop(g_goto(old(self).fs(), final(x).st(), at).code)),
            final(self).cfg == old(self).cfg,
            final(self).cur_frame == Some(at.frame),
            final(self).cur_track == at.track,
            final(self).wf(),
    {
        self.goto(at);
        let mut cpu = self.child();
        f(&mut cpu);
        self.close_loop_at(at, cpu);
    }
}

}

verus! {

impl<'c> Cpu<'c> {
    /// A loop wherever the cursor is; the body is generated by `f` and must end on
    /// the track where it started. The cursor frame stays known only if the body
    /// ends at the frame where it started.
    #[verifier::spinoff_prover]
    pub fn raw_loop(&mut self, f: impl FnOnce(&mut Cpu<'c>))
        requires
            forall|x: &mut Cpu<'c>| x.cfg == old(self).cfg && x.st() == child(old(self).st())
                ==> #[trigger] call_requires(f, (x,)),
            forall|x: &mut Cpu<'c>| x.cfg == old(self).cfg && x.st() == child(old(self).st())
                && #[trigger] call_ensures(f, (x,), ()) ==> final(x).cur_track == x.cur_track,
        ensures
            exists|x: &mut Cpu<'c>| x.cfg == old(self).cfg && x.st() == child(old(self).st())
                && #[trigger] call_ensures(f, (x,), ())
                && final(self).st() == (CpuState {
                    code: old(self).st().code.push(Op::Loop(final(x).st().code)),
                    frame: if old(self).st().frame is Some && final(x).st().frame == old(self).st().frame {
                        old(self).st().frame
                    } else {
                        None
                    },
                    track: old(self).st().track,
                }),
            final(self).cfg == old(self).cfg,
            final(self).cur_track == old(self).cur_track,
            final(self).cur_frame is Some ==> final(self).cur_frame == old(self).cur_frame,
    {
        let mut cpu = self.child();
        f(&mut cpu);
        self.close_raw_loop(cpu);
    }
}

/// Where the first branch of an if-nonzero-else on `cond` starts: the value of
/// `cond` was moved to the first scratch cell and is being moved back.
pub open spec fn ine_then_in(fs: int, s: CpuState, cond: Pos, st: ScratchTrack) -> CpuState {
    g_moveadd(fs, child(g_goto(fs, g_moveadd(fs, s, cond, st.first()), st.first())), st.first(), cond)
}

/// The generator after the first branch (which ended in state `x`) was closed.
pub open spec fn ine_mid(fs: int, s: CpuState, cond: Pos, st: ScratchTrack, x: CpuState) -> CpuState {
    let cc = st.first();
    let fz = cc.shifted(1);
    let s1 = g_goto(fs, g_moveadd(fs, s, cond, cc), cc);
    g_goto(fs, g_op_at(fs, g_op(s1, Op::Loop(g_goto(fs, g_op_at(fs, x, fz, Op::Dec), cc).code)), fz, Op::Inc), fz)
}

/// Where the second branch starts.
pub open spec fn ine_else_in(fs: int, s: CpuState, cond: Pos, st: ScratchTrack, x: CpuState) -> CpuState {
    g_op(child(ine_mid(fs, s, cond, st, x)), Op::Dec)
}

/// The generator after both branches, which ended in states `x` and `y`.
pub open spec fn ine_result(fs: int, s: CpuState, cond: Pos, st: ScratchTrack, x: CpuState, y: CpuState) -> CpuState {
    g_op(ine_mid(fs, s, cond, st, x), Op::Loop(g_goto(fs, y, st.first().shifted(1)).code))
}

/// `g_if_nonzero_else` is made of these parts.
pub proof fn lemma_ine_parts(fs: int, s: CpuState, cond: Pos, st: ScratchTrack,
    th: spec_fn(CpuState) -> CpuState, el: spec_fn(CpuState) -> CpuState)
    ensures
        g_if_nonzero_else(fs, s, cond, st, th, el) == ine_result(fs, s, cond, st,
            th(ine_then_in(fs, s, cond, st)), el(ine_else_in(fs, s, cond, st, th(ine_then_in(fs, s, cond, st))))),
{
}

impl<'c> Cpu<'c> {
    /// Runs `if_nonzero` if the cell `cond` is not zero and `if_zero` if it is,
    /// keeping `cond`: the value is moved to the first scratch cell and back, and
    /// the second scratch cell records that the first branch did not run. Both
    /// branches get the whole scratch track.
    #[verifier::spinoff_prover]
    pub fn if_nonzero_else(
        &mut self,
        cond: Pos,
        scratch_track: ScratchTrack,
        if_nonzero: impl FnOnce(&mut Cpu<'c>, ScratchTrack),
        if_zero: impl FnOnce(&mut Cpu<'c>, ScratchTrack),
    )
        requires
            old(self).can_goto(cond),
            scratch_ok(scratch_track),
            forall|x: &mut Cpu<'c>| x.cfg == old(self).cfg && x.wf() && x.cur_frame is Some
                ==> #[trigger] call_requires(if_nonzero, (x, scratch_track)),
            forall|x: &mut Cpu<'c>| x.cfg == old(self).cfg && x.wf() && x.cur_frame is Some
                && #[trigger] call_ensures(if_nonzero, (x, scratch_track), ())
                ==> final(x).cfg == x.cfg && final(x).wf() && final(x).cur_frame is Some,
            forall|y: &mut Cpu<'c>| y.cfg == old(self).cfg && y.wf() && y.cur_frame is Some
                ==> #[trigger] call_requires(if_zero, (y, scratch_track)),
            forall|y: &mut Cpu<'c>| y.cfg == old(self).cfg && y.wf() && y.cur_frame is Some
                && #[trigger] call_ensures(if_zero, (y, scratch_track), ())
                ==> final(y).cfg == y.cfg && final(y).wf() && final(y).cur_frame is Some,
        ensures
            exists|x: &mut Cpu<'c>, y: &mut Cpu<'c>|
                #![trigger call_ensures(if_nonzero, (x, scratch_track), ()), call_ensures(if_zero, (y, scratch_track), ())]
                x.cfg == old(self).cfg && x.st() == ine_then_in(old(self).fs(), old(self).st(), cond, scratch_track)
                && call_ensures(if_nonzero, (x, scratch_track), ())
                && y.cfg == old(self).cfg && y.st() == ine_else_in(old(self).fs(), old(self).st(), cond, scratch_track, final(x).st())
                && call_ensures(if_zero, (y, scratch_track), ())
                && final(self).st() == ine_result(old(self).fs(), old(self).st(), cond, scratch_track, final(x).st(), final(y).st()),
            final(self).cfg == old(self).cfg,
            final(self).wf(),
            final(self).cur_frame == Some(scratch_track.first().shifted(1).frame),
            final(self).cur_track == scratch_track.first().track,
    {
        let mut c = self.ine_open(cond, scratch_track);
        if_nonzero(&mut c, scratch_track);
        let mut c2 = self.ine_middle(c, scratch_track);
        if_zero(&mut c2, scratch_track);
        self.ine_close(c2, scratch_track);
    }

    /// Runs `if_nonzero` if the cell `cond` is not zero, keeping `cond`: the loop
    /// moves it to the first scratch cell, which is moved back afterwards.
    #[verifier::spinoff_prover]
    pub fn if_nonzero(&mut self, cond: Pos, scratch_track: ScratchTrack, if_nonzero: impl FnOnce(&mut Cpu<'c>, ScratchTrack))
        requires
            old(self).can_goto(cond),
            scratch_ok(scratch_track),
            forall|x: &mut Cpu<'c>| x.cfg == old(self).cfg && x.wf() && x.cur_frame is Some
                ==> #[trigger] call_requires(if_nonzero, (x, scratch_track)),
            forall|x: &mut Cpu<'c>| x.cfg == old(self).cfg && x.wf() && x.cur_frame is Some
                && #[trigger] call_ensures(if_nonzero, (x, scratch_track), ())
                ==> final(x).cfg == x.cfg && final(x).wf() && final(x).cur_frame is Some,
        ensures
            exists|x: &mut Cpu<'c>|
                x.cfg == old(self).cfg && x.st() == child(g_goto(old(self).fs(), old(self).st(), cond))
                && #[trigger] call_ensures(if_nonzero, (x, scratch_track), ())
                && final(self).st() == g_moveadd(old(self).fs(),
                    g_op(g_goto(old(self).fs(), old(self).st(), cond),
                        Op::Loop(g_goto(old(self).fs(), g_moveadd(old(self).fs(), final(x).st(), cond, scratch_track.first()), cond).code)),
                    scratch_track.first(), cond),
            final(self).cfg == old(self).cfg,
            final(self).wf(),
            final(self).cur_frame is Some,
    {
        let cc = scratch_track.first_pos();
        self.goto(cond);
        let mut c = self.child();
        if_nonzero(&mut c, scratch_track);
        c.moveadd_byte(cond, cc);
        self.close_loop_at(cond, c);
        self.moveadd_byte(cc, cond);
    }

    /// Runs `if_zero` if the cell `cond` is zero, keeping `cond`.
    #[verifier::spinoff_prover]
    pub fn if_zero(&mut self, cond: Pos, scratch_track: ScratchTrack, if_zero: impl FnOnce(&mut Cpu<'c>, ScratchTrack))
        requires
            old(self).can_goto(cond),
            scratch_ok(scratch_track),
            forall|y: &mut Cpu<'c>| y.cfg == old(self).cfg && y.wf() && y.cur_frame is Some
                ==> #[trigger] call_requires(if_zero, (y, scratch_track)),
            forall|y: &mut Cpu<'c>| y.cfg == old(self).cfg && y.wf() && y.cur_frame is Some
                && #[trigger] call_ensures(if_zero, (y, scratch_track), ())
                ==> final(y).cfg == y.cfg && final(y).wf() && final(y).cur_frame is Some,
        ensures
            exists|y: &mut Cpu<'c>|
                y.cfg == old(self).cfg
                && y.st() == ine_else_in(old(self).fs(), old(self).st(), cond, scratch_track,
                    ine_then_in(old(self).fs(), old(self).st(), cond, scratch_track))
                && #[trigger] call_ensures(if_zero, (y, scratch_track), ())
                && final(self).st() == ine_result(old(self).fs(), old(self).st(), cond, scratch_track,
                    ine_then_in(old(self).fs(), old(self).st(), cond, scratch_track), final(y).st()),
            final(self).cfg == old(self).cfg,
            final(self).wf(),
            final(self).cur_frame == Some(scratch_track.first().shifted(1).frame),
            final(self).cur_track == scratch_track.first().track,
    {
        self.if_nonzero_else(cond, scratch_track,
            |c: &mut Cpu<'c>, t: ScratchTrack| ensures *final(c) == *old(c) {},
            if_zero);
    }
}

}
verus! {

/// Run `th` if the cell `cond` is not zero, keeping `cond` (moved to the first
/// scratch cell by the loop, and back afterwards).
pub open spec fn g_if_nonzero(fs: int, s: CpuState, cond: Pos, st: ScratchTrack, th: spec_fn(CpuState) -> CpuState) -> CpuState {
    let s1 = g_goto(fs, s, cond);
    g_moveadd(fs, g_op(s1, Op::Loop(g_goto(fs, g_moveadd(fs, th(child(s1)), cond, st.first()), cond).code)), st.first(), cond)
}

/// Adds one to `acc` for each of the first `n` cells of `r` that is not zero.
pub open spec fn g_count_nonzero(fs: int, s: CpuState, r: Register, acc: Pos, st: ScratchTrack, n: int) -> CpuState
    decreases n,
{
    if n <= 0 {
        s
    } else {
        g_if_nonzero(fs, g_count_nonzero(fs, s, r, acc, st, n - 1), reg_at(r, n - 1), st,
            |c: CpuState| g_op_at(fs, c, acc, Op::Inc))
    }
}

/// The generator of `if_register_nonzero_else` after counting the nonzero cells
/// of `r` in the first scratch cell.
pub open spec fn rne_mark(fs: int, s: CpuState, r: Register, st: ScratchTrack) -> CpuState {
    g_count_nonzero(fs, s, r, st.first(), st.spec_split(1), r.size as int)
}

pub open spec fn rne_then_in(fs: int, s: CpuState, r: Register, st: ScratchTrack) -> CpuState {
    ine_then_in(fs, rne_mark(fs, s, r, st), st.first(), st.spec_split(1))
}

pub open spec fn rne_else_in(fs: int, s: CpuState, r: Register, st: ScratchTrack, x: CpuState) -> CpuState {
    ine_else_in(fs, rne_mark(fs, s, r, st), st.first(), st.spec_split(1), x)
}

pub open spec fn rne_result(fs: int, s: CpuState, r: Register, st: ScratchTrack, x: CpuState, y: CpuState) -> CpuState {
    g_clr_at(fs, ine_result(fs, rne_mark(fs, s, r, st), st.first(), st.spec_split(1), x, y), st.first())
}

impl<'c> Cpu<'c> {
    /// Adds one to `acc` if the cell `cond` is not zero.
    #[verifier::spinoff_prover]
    fn count_if_nonzero(&mut self, cond: Pos, acc: Pos, st: ScratchTrack)
        requires
            old(self).can_goto(cond),
            pos_ok(acc),
            scratch_ok(st),
        ensures
            final(self).st() == g_if_nonzero(old(self).fs(), old(self).st(), cond, st, |c: CpuState| g_op_at(old(self).fs(), c, acc, Op::Inc)),
            final(self).cfg == old(self).cfg,
            final(self).wf(),
            final(self).cur_frame is Some,
    {
        self.if_nonzero(cond, st,
            |c: &mut Cpu<'c>, t: ScratchTrack|
                requires pos_ok(acc), old(c).wf(), old(c).cur_frame is Some,
                ensures
                    final(c).cur_frame is Some,
                    final(c).st() == g_op_at(old(c).fs(), old(c).st(), acc, Op::Inc),
                    final(c).cfg == old(c).cfg,
                    final(c).wf()
                { c.inc_at(acc); });
    }

    /// Runs `if_nonzero` if some cell of the register is not zero and `if_zero`
    /// if all are: the nonzero cells are counted in the first scratch cell, which
    /// is cleared afterwards. The branches get the rest of the scratch track.
    #[verifier::spinoff_prover]
    pub fn if_register_nonzero_else(
        &mut self,
        register: Register,
        scratch_track: ScratchTrack,
        if_nonzero: impl FnOnce(&mut Cpu<'c>, ScratchTrack),
        if_zero: impl FnOnce(&mut Cpu<'c>, ScratchTrack),
    )
        requires
            old(self).wf(),
            old(self).cur_frame is Some,
            reg_ok(register),
            scratch_room(scratch_track),
            forall|x: &mut Cpu<'c>| x.cfg == old(self).cfg && x.wf() && x.cur_frame is Some
                ==> #[trigger] call_requires(if_nonzero, (x, scratch_track.spec_split(1))),
            forall|x: &mut Cpu<'c>| x.cfg == old(self).cfg && x.wf() && x.cur_frame is Some
                && #[trigger] call_ensures(if_nonzero, (x, scratch_track.spec_split(1)), ())
                ==> final(x).cfg == x.cfg && final(x).wf() && final(x).cur_frame is Some,
            forall|y: &mut Cpu<'c>| y.cfg == old(self).cfg && y.wf() && y.cur_frame is Some
                ==> #[trigger] call_requires(if_zero, (y, scratch_track.spec_split(1))),
            forall|y: &mut Cpu<'c>| y.cfg == old(self).cfg && y.wf() && y.cur_frame is Some
                && #[trigger] call_ensures(if_zero, (y, scratch_track.spec_split(1)), ())
                ==> final(y).cfg == y.cfg && final(y).wf() && final(y).cur_frame is Some,
        ensures
            exists|x: &mut Cpu<'c>, y: &mut Cpu<'c>|
                #![trigger call_ensures(if_nonzero, (x, scratch_track.spec_split(1)), ()), call_ensures(if_zero, (y, scratch_track.spec_split(1)), ())]
                x.cfg == old(self).cfg && x.st() == rne_then_in(old(self).fs(), old(self).st(), register, scratch_track)
                && call_ensures(if_nonzero, (x, scratch_track.spec_split(1)), ())
                && y.cfg == old(self).cfg && y.st() == rne_else_in(old(self).fs(), old(self).st(), register, scratch_track, final(x).st())
                && call_ensures(if_zero, (y, scratch_track.spec_split(1)), ())
                && final(self).st() == rne_result(old(self).fs(), old(self).st(), register, scratch_track, final(x).st(), final(y).st()),
            final(self).cfg == old(self).cfg,
            final(self).wf(),
            final(self).cur_frame == Some(scratch_track.first().frame),
            final(self).cur_track == scratch_track.first().track,
    {
        let ghost fs = self.fs();
        let ghost s0 = self.st();
        let (acc, st2) = scratch_track.split_1();
        let mut i: isize = 0;
        while i < register.size
            invariant
                0 <= i <= register.size,
                reg_ok(register),
                scratch_room(scratch_track),
                acc == scratch_track.first(),
                st2 == scratch_track.spec_split(1),
                self.wf(),
                self.cur_frame is Some,
                self.cfg == old(self).cfg,
                fs == self.fs(),
                self.st() == g_count_nonzero(fs, s0, register, acc, st2, i as int),
            decreases register.size - i,
        {
            let cond = register.at(i);
            self.count_if_nonzero(cond, acc, st2);
            i = i + 1;
        }
        self.if_nonzero_else(acc, st2, if_nonzero, if_zero);
        self.clr_at(acc);
    }
}

}
verus! {

/// Where the branch for a register below zero starts in `cmp_register`: the
/// first cell was incremented, found nonzero, and is decremented back.
pub open spec fn cmpr_lt_in(fs: int, s: CpuState, r: Register, st: ScratchTrack) -> CpuState {
    let r0 = reg_at(r, 0);
    g_op_at(fs, ine_then_in(fs, g_op_at(fs, s, r0, Op::Inc), r0, st), r0, Op::Dec)
}

/// Where `cmp_register` tests the whole register, after the first branch ended in `x`.
pub open spec fn cmpr_rest(fs: int, s: CpuState, r: Register, st: ScratchTrack, x: CpuState) -> CpuState {
    let r0 = reg_at(r, 0);
    g_op_at(fs, ine_else_in(fs, g_op_at(fs, s, r0, Op::Inc), r0, st, x), r0, Op::Dec)
}

pub open spec fn cmpr_result(fs: int, s: CpuState, r: Register, st: ScratchTrack, x: CpuState, y: CpuState, z: CpuState) -> CpuState {
    let r0 = reg_at(r, 0);
    ine_result(fs, g_op_at(fs, s, r0, Op::Inc), r0, st, x, rne_result(fs, cmpr_rest(fs, s, r, st, x), r, st, y, z))
}

impl<'c> Cpu<'c> {
    /// Branches three ways on a register: `if_lt_zero` when its first cell is not
    /// 255, and otherwise `if_gt_zero` or `if_zero` as the register (with its
    /// first cell back as it was) has a nonzero cell or not.
    #[verifier::spinoff_prover]
    pub fn cmp_register(
        &mut self,
        register: Register,
        scratch_track: ScratchTrack,
        if_lt_zero: impl FnOnce(&mut Cpu<'c>, ScratchTrack),
        if_zero: impl FnOnce(&mut Cpu<'c>, ScratchTrack),
        if_gt_zero: impl FnOnce(&mut Cpu<'c>, ScratchTrack),
    )
        requires
            old(self).wf(),
            old(self).cur_frame is Some,
            reg_ok(register),
            scratch_room(scratch_track),
            forall|x: &mut Cpu<'c>| x.cfg == old(self).cfg && x.wf() && x.cur_frame is Some
                ==> #[trigger] call_requires(if_lt_zero, (x, scratch_track)),
            forall|x: &mut Cpu<'c>| x.cfg == old(self).cfg && x.wf() && x.cur_frame is Some
                && #[trigger] call_ensures(if_lt_zero, (x, scratch_track), ())
                ==> final(x).cfg == x.cfg && final(x).wf() && final(x).cur_frame is Some,
            forall|y: &mut Cpu<'c>| y.cfg == old(self).cfg && y.wf() && y.cur_frame is Some
                ==> #[trigger] call_requires(if_gt_zero, (y, scratch_track.spec_split(1))),
            forall|y: &mut Cpu<'c>| y.cfg == old(self).cfg && y.wf() && y.cur_frame is Some
                && #[trigger] call_ensures(if_gt_zero, (y, scratch_track.spec_split(1)), ())
                ==> final(y).cfg == y.cfg && final(y).wf() && final(y).cur_frame is Some,
            forall|z: &mut Cpu<'c>| z.cfg == old(self).cfg && z.wf() && z.cur_frame is Some
                ==> #[trigger] call_requires(if_zero, (z, scratch_track.spec_split(1))),
            forall|z: &mut Cpu<'c>| z.cfg == old(self).cfg && z.wf() && z.cur_frame is Some
                && #[trigger] call_ensures(if_zero, (z, scratch_track.spec_split(1)), ())
                ==> final(z).cfg == z.cfg && final(z).wf() && final(z).cur_frame is Some,
        ensures
            exists|x: &mut Cpu<'c>, y: &mut Cpu<'c>, z: &mut Cpu<'c>|
                #![trigger call_ensures(if_lt_zero, (x, scratch_track), ()),
                    call_ensures(if_gt_zero, (y, scratch_track.spec_split(1)), ()),
                    call_ensures(if_zero, (z, scratch_track.spec_split(1)), ())]
                x.cfg == old(self).cfg && x.st() == cmpr_lt_in(old(self).fs(), old(self).st(), register, scratch_track)
                && call_ensures(if_lt_zero, (x, scratch_track), ())
                && y.cfg == old(self).cfg
                && y.st() == rne_then_in(old(self).fs(), cmpr_rest(old(self).fs(), old(self).st(), register, scratch_track, final(x).st()), register, scratch_track)
                && call_ensures(if_gt_zero, (y, scratch_track.spec_split(1)), ())
                && z.cfg == old(self).cfg
                && z.st() == rne_else_in(old(self).fs(), cmpr_rest(old(self).fs(), old(self).st(), register, scratch_track, final(x).st()), register, scratch_track, final(y).st())
                && call_ensures(if_zero, (z, scratch_track.spec_split(1)), ())
                && final(self).st() == cmpr_result(old(self).fs(), old(self).st(), register, scratch_track, final(x).st(), final(y).st(), final(z).st()),
            final(self).cfg == old(self).cfg,
            final(self).wf(),
            final(self).cur_frame is Some,
    {
        let r0 = register.at(0);
        self.inc_at(r0);
        let mut c = self.ine_open(r0, scratch_track);
        c.dec_at(r0);
        if_lt_zero(&mut c, scratch_track);
        let mut c2 = self.ine_middle(c, scratch_track);
        c2.dec_at(r0);
        c2.if_register_nonzero_else(register, scratch_track, if_gt_zero, if_zero);
        self.ine_close(c2, scratch_track);
    }
}

}
verus! {

/// The parts of `move_match_cmp_result` on the cell `cmp` (-1, 0 or 1): the
/// generator inside the test for -1 after adding one back.
pub open spec fn mm_c1(fs: int, s: CpuState, cmp: Pos, st: ScratchTrack) -> CpuState {
    g_op_at(fs, ine_then_in(fs, s, cmp, st), cmp, Op::Inc)
}

/// Inside the test for 1, after subtracting two.
pub open spec fn mm_d1(fs: int, s: CpuState, cmp: Pos, st: ScratchTrack) -> CpuState {
    g_sub_const(fs, ine_then_in(fs, mm_c1(fs, s, cmp, st), cmp, st), cmp, 2)
}

/// The branch taken when nothing is left: clear the cell.
pub open spec fn mm_e1(fs: int, s: CpuState, cmp: Pos, st: ScratchTrack) -> CpuState {
    g_clr_at(fs, ine_then_in(fs, mm_d1(fs, s, cmp, st), cmp, st), cmp)
}

pub open spec fn mm_gt_in(fs: int, s: CpuState, cmp: Pos, st: ScratchTrack) -> CpuState {
    ine_else_in(fs, mm_d1(fs, s, cmp, st), cmp, st, mm_e1(fs, s, cmp, st))
}

pub open spec fn mm_d_end(fs: int, s: CpuState, cmp: Pos, st: ScratchTrack, x: CpuState) -> CpuState {
    ine_result(fs, mm_d1(fs, s, cmp, st), cmp, st, mm_e1(fs, s, cmp, st), x)
}

pub open spec fn mm_lt_in(fs: int, s: CpuState, cmp: Pos, st: ScratchTrack, x: CpuState) -> CpuState {
    ine_else_in(fs, mm_c1(fs, s, cmp, st), cmp, st, mm_d_end(fs, s, cmp, st, x))
}

pub open spec fn mm_c_end(fs: int, s: CpuState, cmp: Pos, st: ScratchTrack, x: CpuState, y: CpuState) -> CpuState {
    ine_result(fs, mm_c1(fs, s, cmp, st), cmp, st, mm_d_end(fs, s, cmp, st, x), y)
}

pub open spec fn mm_eq_in(fs: int, s: CpuState, cmp: Pos, st: ScratchTrack, x: CpuState, y: CpuState) -> CpuState {
    ine_else_in(fs, s, cmp, st, mm_c_end(fs, s, cmp, st, x, y))
}

pub open spec fn mm_result(fs: int, s: CpuState, cmp: Pos, st: ScratchTrack, x: CpuState, y: CpuState, z: CpuState) -> CpuState {
    ine_result(fs, s, cmp, st, mm_c_end(fs, s, cmp, st, x, y), z)
}

impl<'c> Cpu<'c> {
    /// Branches on a comparison result in the cell `cmp_result` (-1 if a < b,
    /// 0 if a = b, 1 if a > b), and clears it. Every branch gets the whole
    /// scratch track.
    #[verifier::spinoff_prover]
    pub fn move_match_cmp_result(
        &mut self,
        cmp_result: Pos,
        scratch_track: ScratchTrack,
        if_a_lt_b: impl FnOnce(&mut Cpu<'c>, ScratchTrack),
        if_eq: impl FnOnce(&mut Cpu<'c>, ScratchTrack),
        if_a_gt_b: impl FnOnce(&mut Cpu<'c>, ScratchTrack),
    )
        requires
            old(self).can_goto(cmp_result),
            scratch_ok(scratch_track),
            forall|x: &mut Cpu<'c>| x.cfg == old(self).cfg && x.wf() && x.cur_frame is Some
                ==> #[trigger] call_requires(if_a_gt_b, (x, scratch_track)),
            forall|x: &mut Cpu<'c>| x.cfg == old(self).cfg && x.wf() && x.cur_frame is Some
                && #[trigger] call_ensures(if_a_gt_b, (x, scratch_track), ())
                ==> final(x).cfg == x.cfg && final(x).wf() && final(x).cur_frame is Some,
            forall|y: &mut Cpu<'c>| y.cfg == old(self).cfg && y.wf() && y.cur_frame is Some
                ==> #[trigger] call_requires(if_a_lt_b, (y, scratch_track)),
            forall|y: &mut Cpu<'c>| y.cfg == old(self).cfg && y.wf() && y.cur_frame is Some
                && #[trigger] call_ensures(if_a_lt_b, (y, scratch_track), ())
                ==> final(y).cfg == y.cfg && final(y).wf() && final(y).cur_frame is Some,
            forall|z: &mut Cpu<'c>| z.cfg == old(self).cfg && z.wf() && z.cur_frame is Some
                ==> #[trigger] call_requires(if_eq, (z, scratch_track)),
            forall|z: &mut Cpu<'c>| z.cfg == old(self).cfg && z.wf() && z.cur_frame is Some
                && #[trigger] call_ensures(if_eq, (z, scratch_track), ())
                ==> final(z).cfg == z.cfg && final(z).wf() && final(z).cur_frame is Some,
        ensures
            exists|x: &mut Cpu<'c>, y: &mut Cpu<'c>, z: &mut Cpu<'c>|
                #![trigger call_ensures(if_a_gt_b, (x, scratch_track), ()),
                    call_ensures(if_a_lt_b, (y, scratch_track), ()),
                    call_ensures(if_eq, (z, scratch_track), ())]
                x.cfg == old(self).cfg && x.st() == mm_gt_in(old(self).fs(), old(self).st(), cmp_result, scratch_track)
                && call_ensures(if_a_gt_b, (x, scratch_track), ())
                && y.cfg == old(self).cfg
                && y.st() == mm_lt_in(old(self).fs(), old(self).st(), cmp_result, scratch_track, final(x).st())
                && call_ensures(if_a_lt_b, (y, scratch_track), ())
                && z.cfg == old(self).cfg
                && z.st() == mm_eq_in(old(self).fs(), old(self).st(), cmp_result, scratch_track, final(x).st(), final(y).st())
                && call_ensures(if_eq, (z, scratch_track), ())
                && final(self).st() == mm_result(old(self).fs(), old(self).st(), cmp_result, scratch_track,
                    final(x).st(), final(y).st(), final(z).st()),
            final(self).cfg == old(self).cfg,
            final(self).wf(),
            final(self).cur_frame is Some,
    {
        let mut c = self.ine_open(cmp_result, scratch_track);
        c.inc_at(cmp_result);
        let mut d = c.ine_open(cmp_result, scratch_track);
        d.sub_const_from_byte(cmp_result, 2);
        let mut e = d.ine_open(cmp_result, scratch_track);
        e.clr_at(cmp_result);
        let mut e2 = d.ine_middle(e, scratch_track);
        if_a_gt_b(&mut e2, scratch_track);
        d.ine_close(e2, scratch_track);
        let mut d2 = c.ine_middle(d, scratch_track);
        if_a_lt_b(&mut d2, scratch_track);
        c.ine_close(d2, scratch_track);
        let mut c2 = self.ine_middle(c, scratch_track);
        if_eq(&mut c2, scratch_track);
        self.ine_close(c2, scratch_track);
    }

    /// Branches on a copy of the comparison result in `cmp_result` (made through
    /// the first scratch cell), keeping the cell. The branches get the rest of the
    /// scratch track.
    #[verifier::spinoff_prover]
    pub fn match_cmp_result(
        &mut self,
        cmp_result: Pos,
        scratch_track: ScratchTrack,
        if_a_lt_b: impl FnOnce(&mut Cpu<'c>, ScratchTrack),
        if_eq: impl FnOnce(&mut Cpu<'c>, ScratchTrack),
        if_a_gt_b: impl FnOnce(&mut Cpu<'c>, ScratchTrack),
    )
        requires
            old(self).wf(),
            old(self).cur_frame is Some,
            near(cmp_result),
            scratch_room(scratch_track),
            forall|x: &mut Cpu<'c>| x.cfg == old(self).cfg && x.wf() && x.cur_frame is Some
                ==> #[trigger] call_requires(if_a_gt_b, (x, scratch_track.spec_split(1))),
            forall|x: &mut Cpu<'c>| x.cfg == old(self).cfg && x.wf() && x.cur_frame is Some
                && #[trigger] call_ensures(if_a_gt_b, (x, scratch_track.spec_split(1)), ())
                ==> final(x).cfg == x.cfg && final(x).wf() && final(x).cur_frame is Some,
            forall|y: &mut Cpu<'c>| y.cfg == old(self).cfg && y.wf() && y.cur_frame is Some
                ==> #[trigger] call_requires(if_a_lt_b, (y, scratch_track.spec_split(1))),
            forall|y: &mut Cpu<'c>| y.cfg == old(self).cfg && y.wf() && y.cur_frame is Some
                && #[trigger] call_ensures(if_a_lt_b, (y, scratch_track.spec_split(1)), ())
                ==> final(y).cfg == y.cfg && final(y).wf() && final(y).cur_frame is Some,
            forall|z: &mut Cpu<'c>| z.cfg == old(self).cfg && z.wf() && z.cur_frame is Some
                ==> #[trigger] call_requires(if_eq, (z, scratch_track.spec_split(1))),
            forall|z: &mut Cpu<'c>| z.cfg == old(self).cfg && z.wf() && z.cur_frame is Some
                && #[trigger] call_ensures(if_eq, (z, scratch_track.spec_split(1)), ())
                ==> final(z).cfg == z.cfg && final(z).wf() && final(z).cur_frame is Some,
        ensures
            exists|x: &mut Cpu<'c>, y: &mut Cpu<'c>, z: &mut Cpu<'c>|
                #![trigger call_ensures(if_a_gt_b, (x, scratch_track.spec_split(1)), ()),
                    call_ensures(if_a_lt_b, (y, scratch_track.spec_split(1)), ()),
                    call_ensures(if_eq, (z, scratch_track.spec_split(1)), ())]
                ({
                    let s1 = g_copy_auto(old(self).fs(), old(self).st(), cmp_result, scratch_track.first(), scratch_track.spec_split(1));
                    let cpy = scratch_track.first();
                    let rest = scratch_track.spec_split(1);
                    &&& x.cfg == old(self).cfg && x.st() == mm_gt_in(old(self).fs(), s1, cpy, rest)
                    &&& call_ensures(if_a_gt_b, (x, rest), ())
                    &&& y.cfg == old(self).cfg && y.st() == mm_lt_in(old(self).fs(), s1, cpy, rest, final(x).st())
                    &&& call_ensures(if_a_lt_b, (y, rest), ())
                    &&& z.cfg == old(self).cfg && z.st() == mm_eq_in(old(self).fs(), s1, cpy, rest, final(x).st(), final(y).st())
                    &&& call_ensures(if_eq, (z, rest), ())
                    &&& final(self).st() == mm_result(old(self).fs(), s1, cpy, rest, final(x).st(), final(y).st(), final(z).st())
                }),
            final(self).cfg == old(self).cfg,
            final(self).wf(),
            final(self).cur_frame is Some,
    {
        let (cmp_result_cpy, rest) = scratch_track.split_1();
        self.copy_byte_autoscratch(cmp_result, cmp_result_cpy, rest);
        self.move_match_cmp_result(cmp_result_cpy, rest, if_a_lt_b, if_eq, if_a_gt_b);
    }
}

}
verus! {

/// The parts of `foreach_pos_of_register`: markers at the second and third
/// scratch cells, before `init` runs.
pub open spec fn fp_start(fs: int, s: CpuState, st: ScratchTrack) -> CpuState {
    g_op_at(fs, g_op_at(fs, s, st.first().shifted(1), Op::Inc), st.first().shifted(2), Op::Inc)
}

/// The generator at the loop on the counter, after `init` left it in `a`.
pub open spec fn fp_loop(fs: int, a: CpuState, st: ScratchTrack, size: int) -> CpuState {
    g_goto(fs, g_add_const(fs, a, st.first(), size as u8), st.first())
}

/// Where `f` starts in the loop body: the counter was decremented and the
/// cursor walked right from the third scratch cell to the moving marker.
pub open spec fn fp_body_in(fs: int, a: CpuState, st: ScratchTrack, size: int) -> CpuState {
    let s2p = st.first().shifted(2);
    g_sentinel(fs, g_goto(fs, g_op_at(fs, child(fp_loop(fs, a, st, size)), st.first(), Op::Dec), s2p), s2p, Op::Dec, Op::Inc, 1)
}

/// After the loop, with the body's `f` ending in `x`, and the walk to the end.
pub open spec fn fp_after(fs: int, a: CpuState, st: ScratchTrack, size: int, x: CpuState) -> CpuState {
    let s1p = st.first().shifted(1);
    let s2p = st.first().shifted(2);
    let body_end = g_op(g_sentinel(fs, g_goto(fs, g_op_at(fs, x, s2p.shifted(1), Op::Inc), s1p), s1p, Op::Dec, Op::Inc, -1), Op::Inc);
    let l = fp_loop(fs, a, st, size);
    let b = g_op(l, Op::Loop(g_goto(fs, body_end, st.first()).code));
    g_sentinel(fs, g_goto(fs, b, s2p), s2p.shifted(size), Op::Dec, Op::Inc, 1)
}

/// The end, after `fin` left the generator in `c`: back to the fixed marker.
pub open spec fn fp_end(fs: int, c: CpuState, st: ScratchTrack, size: int) -> CpuState {
    g_sentinel(fs, g_goto(fs, c, st.first().shifted(2).shifted(size - 1)), st.first().shifted(1), Op::Dec, Op::Inc, -1)
}

impl<'c> Cpu<'c> {
    /// Visits the cells of a register with a loop: a marker moves one frame right
    /// each round, and `f` runs with the cursor frame at the cell being visited,
    /// seen as the register's first cell. `init` runs before the loop and `fin`
    /// after it. The first three scratch cells hold the counter and the markers.
    #[verifier::spinoff_prover]
    pub fn foreach_pos_of_register(
        &mut self,
        register: Register,
        scratch_track: ScratchTrack,
        init: Option<impl FnOnce(&mut Cpu<'c>, ScratchTrack)>,
        f: impl FnOnce(&mut Cpu<'c>, Pos, ScratchTrack),
        fin: Option<impl FnOnce(&mut Cpu<'c>, ScratchTrack)>,
    )
        requires
            old(self).wf(),
            old(self).cur_frame is Some,
            reg_ok(register),
            scratch_room(scratch_track),
            init is Some ==> forall|x: &mut Cpu<'c>| x.cfg == old(self).cfg && x.wf() && x.cur_frame is Some
                ==> #[trigger] call_requires(init->0, (x, scratch_track.spec_split(3))),
            init is Some ==> forall|x: &mut Cpu<'c>| x.cfg == old(self).cfg && x.wf() && x.cur_frame is Some
                && #[trigger] call_ensures(init->0, (x, scratch_track.spec_split(3)), ())
                ==> final(x).cfg == x.cfg && final(x).wf() && final(x).cur_frame is Some,
            forall|x: &mut Cpu<'c>| x.cfg == old(self).cfg && x.wf() && x.cur_frame is Some
                ==> #[trigger] call_requires(f, (x, reg_at(register, 0), scratch_track.spec_split(3))),
            forall|x: &mut Cpu<'c>| x.cfg == old(self).cfg && x.wf() && x.cur_frame is Some
                && #[trigger] call_ensures(f, (x, reg_at(register, 0), scratch_track.spec_split(3)), ())
                ==> final(x).cfg == x.cfg && final(x).wf() && final(x).cur_frame is Some,
            fin is Some ==> forall|x: &mut Cpu<'c>| x.cfg == old(self).cfg && x.wf() && x.cur_frame is Some
                ==> #[trigger] call_requires(fin->0, (x, scratch_track.spec_split(3).spec_split(register.size as int))),
            fin is Some ==> forall|x: &mut Cpu<'c>| x.cfg == old(self).cfg && x.wf() && x.cur_frame is Some
                && #[trigger] call_ensures(fin->0, (x, scratch_track.spec_split(3).spec_split(register.size as int)), ())
                ==> final(x).cfg == x.cfg && final(x).wf() && final(x).cur_frame is Some,
        ensures
            exists|xi: &mut Cpu<'c>, xf: &mut Cpu<'c>, xn: &mut Cpu<'c>|
                #![trigger call_ensures(f, (xf, reg_at(register, 0), scratch_track.spec_split(3)), ()), xi.st(), xn.st()]
                ({
                    let fs = old(self).fs();
                    let rest = scratch_track.spec_split(3);
                    let size = register.size as int;
                    let p = fp_start(fs, old(self).st(), scratch_track);
                    let a = if init is Some { final(xi).st() } else { p };
                    let b = fp_after(fs, a, scratch_track, size, final(xf).st());
                    let c = if fin is Some { final(xn).st() } else { b };
                    &&& init is Some ==> xi.cfg == old(self).cfg && xi.st() == p && call_ensures(init->0, (xi, rest), ())
                    &&& xf.cfg == old(self).cfg && xf.st() == fp_body_in(fs, a, scratch_track, size)
                    &&& call_ensures(f, (xf, reg_at(register, 0), rest), ())
                    &&& fin is Some ==> xn.cfg == old(self).cfg && xn.st() == b && call_ensures(fin->0, (xn, rest.spec_split(size)), ())
                    &&& final(self).st() == fp_end(fs, c, scratch_track, size)
                }),
            final(self).cfg == old(self).cfg,
            final(self).wf(),
            final(self).cur_frame == Some(scratch_track.first().shifted(1).frame),
    {
        let (three, rest) = scratch_track.split_3();
        let counter = three[0];
        let sentinel1 = three[1];
        let sentinel2 = three[2];
        self.inc_at(sentinel1);
        self.inc_at(sentinel2);
        if let Some(init) = init {
            init(self, rest);
        }
        self.add_const_to_byte(counter, register.size as u8);
        self.goto(counter);
        let mut c = self.child();
        c.dec_at(counter);
        c.goto(sentinel2);
        c.go_clear_sentinel_right(sentinel2);
        let r0 = register.at(0);
        assert(r0 == reg_at(register, 0));
        f(&mut c, r0, rest);
        c.inc_at(sentinel2.get_shifted(1));
        c.goto(sentinel1);
        c.goto_sentinel_left(sentinel1);
        self.close_loop_at(counter, c);
        self.goto(sentinel2);
        self.go_clear_sentinel_right(sentinel2.get_shifted(register.size));
        if let Some(fin) = fin {
            fin(self, rest.get_split_scratch(register.size));
        }
        self.goto(sentinel2.get_shifted(register.size - 1));
        self.go_clear_sentinel_left(sentinel1);
    }
}

}
verus! {

/// The scratch track of `foreach_pos_of_register_rev` after its first cell and
/// the `size - 1` cells after it are split off; its first cell is the loop marker.
pub open spec fn fpr_track(st: ScratchTrack, size: int) -> ScratchTrack {
    st.spec_split(1).spec_split(size - 1)
}

/// The generator at the loop on the marker, after `init` left it in `a`.
pub open spec fn fpr_loop(fs: int, a: CpuState, st: ScratchTrack, size: int) -> CpuState {
    let s2p = fpr_track(st, size).first();
    g_goto(fs, g_op_at(fs, a, s2p, Op::Inc), s2p)
}

/// After the loop, whose `f` ended in `x` (the frame is then moved one on).
pub open spec fn fpr_after(fs: int, a: CpuState, st: ScratchTrack, size: int, x: CpuState) -> CpuState {
    let s2p = fpr_track(st, size).first();
    let moved = CpuState { frame: Some(x.frame.unwrap() + 1), ..x };
    g_op(fpr_loop(fs, a, st, size), Op::Loop(g_goto(fs, g_op_at(fs, moved, s2p, Op::Inc), s2p).code))
}

/// The end, after `fin` left the generator in `c`: the cursor frame is known
/// again relative to the fixed marker.
pub open spec fn fpr_end(c: CpuState, st: ScratchTrack, size: int) -> CpuState {
    CpuState { frame: Some(c.frame.unwrap() + st.first().frame - fpr_track(st, size).first().frame), ..c }
}

impl<'c> Cpu<'c> {
    /// Visits the cells of a register from the last to the first: each round the
    /// cursor frame is taken to be one further right, so that `f` always sees the
    /// visited cell as the register's last one. A marker at the first scratch cell
    /// (255) stops the loop; `init` runs before it and `fin` after it.
    #[verifier::spinoff_prover]
    pub fn foreach_pos_of_register_rev(
        &mut self,
        register: Register,
        scratch_track: ScratchTrack,
        init: Option<impl FnOnce(&mut Cpu<'c>, ScratchTrack)>,
        f: impl FnOnce(&mut Cpu<'c>, Pos, ScratchTrack),
        fin: Option<impl FnOnce(&mut Cpu<'c>, ScratchTrack)>,
    )
        requires
            old(self).wf(),
            old(self).cur_frame is Some,
            reg_ok(register),
            scratch_room(scratch_track),
            init is Some ==> forall|x: &mut Cpu<'c>| x.cfg == old(self).cfg && x.wf() && x.cur_frame is Some
                ==> #[trigger] call_requires(init->0, (x, fpr_track(scratch_track, register.size as int).spec_split(1))),
            init is Some ==> forall|x: &mut Cpu<'c>| x.cfg == old(self).cfg && x.wf() && x.cur_frame is Some
                && #[trigger] call_ensures(init->0, (x, fpr_track(scratch_track, register.size as int).spec_split(1)), ())
                ==> final(x).cfg == x.cfg && final(x).wf() && final(x).cur_frame is Some,
            forall|x: &mut Cpu<'c>| x.cfg == old(self).cfg && x.wf() && x.cur_frame is Some
                ==> #[trigger] call_requires(f, (x, reg_at(register, register.size - 1), fpr_track(scratch_track, register.size as int).spec_split(1))),
            forall|x: &mut Cpu<'c>| x.cfg == old(self).cfg && x.wf() && x.cur_frame is Some
                && #[trigger] call_ensures(f, (x, reg_at(register, register.size - 1), fpr_track(scratch_track, register.size as int).spec_split(1)), ())
                ==> final(x).cfg == x.cfg && final(x).wf() && final(x).cur_frame is Some
                    && -0x40_0000 <= final(x).cur_frame.unwrap() < 0x40_0000,
            fin is Some ==> forall|x: &mut Cpu<'c>| x.cfg == old(self).cfg && x.wf() && x.cur_frame is Some
                ==> #[trigger] call_requires(fin->0, (x, fpr_track(scratch_track, register.size as int).spec_split(1))),
            fin is Some ==> forall|x: &mut Cpu<'c>| x.cfg == old(self).cfg && x.wf() && x.cur_frame is Some
                && #[trigger] call_ensures(fin->0, (x, fpr_track(scratch_track, register.size as int).spec_split(1)), ())
                ==> final(x).cfg == x.cfg && final(x).wf() && final(x).cur_frame is Some,
        ensures
            exists|xi: &mut Cpu<'c>, xf: &mut Cpu<'c>, xn: &mut Cpu<'c>|
                #![trigger call_ensures(f, (xf, reg_at(register, register.size - 1), fpr_track(scratch_track, register.size as int).spec_split(1)), ()), xi.st(), xn.st()]
                ({
                    let fs = old(self).fs();
                    let size = register.size as int;
                    let rest = fpr_track(scratch_track, size).spec_split(1);
                    let p = g_op_at(fs, old(self).st(), scratch_track.first(), Op::Dec);
                    let a = if init is Some { final(xi).st() } else { p };
                    let b = fpr_after(fs, a, scratch_track, size, final(xf).st());
                    let c = if fin is Some { final(xn).st() } else { b };
                    &&& init is Some ==> xi.cfg == old(self).cfg && xi.st() == p && call_ensures(init->0, (xi, rest), ())
                    &&& xf.cfg == old(self).cfg && xf.st() == g_op(child(fpr_loop(fs, a, scratch_track, size)), Op::Dec)
                    &&& call_ensures(f, (xf, reg_at(register, size - 1), rest), ())
                    &&& fin is Some ==> xn.cfg == old(self).cfg && xn.st() == b && call_ensures(fin->0, (xn, rest), ())
                    &&& final(self).st() == fpr_end(c, scratch_track, size)
                }),
            final(self).cfg == old(self).cfg,
            final(self).cur_frame is Some,
    {
        let (sentinel1, st1) = scratch_track.split_1();
        self.dec_at(sentinel1);
        let st2 = st1.get_split_scratch(register.size - 1);
        let (sentinel2, rest) = st2.split_1();
        if let Some(init) = init {
            init(self, rest);
        }
        self.inc_at(sentinel2);
        self.goto(sentinel2);
        let mut c = self.child();
        c.dec();
        let last = register.at(register.size - 1);
        assert(last == reg_at(register, register.size - 1));
        f(&mut c, last, rest);
        let cf = c.cur_frame.unwrap();
        c.cur_frame = Some(cf + 1);
        c.inc_at(sentinel2);
        self.close_loop_at(sentinel2, c);
        if let Some(fin) = fin {
            fin(self, rest);
        }
        self.now_if_we_were_at_a_wed_actually_be_at_b(sentinel2, sentinel1);
    }
}

}

verus! {

impl<'c> Cpu<'c> {
    /// `foreach_pos_of_register` on the cells of a binary register.
    #[verifier::spinoff_prover]
    pub fn foreach_pos_of_binregister(
        &mut self,
        register: BinRegister,
        scratch_track: ScratchTrack,
        init: Option<impl FnOnce(&mut Cpu<'c>, ScratchTrack)>,
        f: impl FnOnce(&mut Cpu<'c>, Pos, ScratchTrack),
        fin: Option<impl FnOnce(&mut Cpu<'c>, ScratchTrack)>,
    )
        requires
            old(self).wf(),
            old(self).cur_frame is Some,
            reg_ok(register.as_register_spec()),
            scratch_room(scratch_track),
            init is Some ==> forall|x: &mut Cpu<'c>| x.cfg == old(self).cfg && x.wf() && x.cur_frame is Some
                ==> #[trigger] call_requires(init->0, (x, scratch_track.spec_split(3))),
            init is Some ==> forall|x: &mut Cpu<'c>| x.cfg == old(self).cfg && x.wf() && x.cur_frame is Some
                && #[trigger] call_ensures(init->0, (x, scratch_track.spec_split(3)), ())
                ==> final(x).cfg == x.cfg && final(x).wf() && final(x).cur_frame is Some,
            forall|x: &mut Cpu<'c>| x.cfg == old(self).cfg && x.wf() && x.cur_frame is Some
                ==> #[trigger] call_requires(f, (x, reg_at(register.as_register_spec(), 0), scratch_track.spec_split(3))),
            forall|x: &mut Cpu<'c>| x.cfg == old(self).cfg && x.wf() && x.cur_frame is Some
                && #[trigger] call_ensures(f, (x, reg_at(register.as_register_spec(), 0), scratch_track.spec_split(3)), ())
                ==> final(x).cfg == x.cfg && final(x).wf() && final(x).cur_frame is Some,
            fin is Some ==> forall|x: &mut Cpu<'c>| x.cfg == old(self).cfg && x.wf() && x.cur_frame is Some
                ==> #[trigger] call_requires(fin->0, (x, scratch_track.spec_split(3).spec_split(register.size as int))),
            fin is Some ==> forall|x: &mut Cpu<'c>| x.cfg == old(self).cfg && x.wf() && x.cur_frame is Some
                && #[trigger] call_ensures(fin->0, (x, scratch_track.spec_split(3).spec_split(register.size as int)), ())
                ==> final(x).cfg == x.cfg && final(x).wf() && final(x).cur_frame is Some,
        ensures
            exists|xi: &mut Cpu<'c>, xf: &mut Cpu<'c>, xn: &mut Cpu<'c>|
                #![trigger call_ensures(f, (xf, reg_at(register.as_register_spec(), 0), scratch_track.spec_split(3)), ()), xi.st(), xn.st()]
                ({
                    let fs = old(self).fs();
                    let rest = scratch_track.spec_split(3);
                    let size = register.size as int;
                    let p = fp_start(fs, old(self).st(), scratch_track);
                    let a = if init is Some { final(xi).st() } else { p };
                    let b = fp_after(fs, a, scratch_track, size, final(xf).st());
                    let c = if fin is Some { final(xn).st() } else { b };
                    &&& init is Some ==> xi.cfg == old(self).cfg && xi.st() == p && call_ensures(init->0, (xi, rest), ())
                    &&& xf.cfg == old(self).cfg && xf.st() == fp_body_in(fs, a, scratch_track, size)
                    &&& call_ensures(f, (xf, reg_at(register.as_register_spec(), 0), rest), ())
                    &&& fin is Some ==> xn.cfg == old(self).cfg && xn.st() == b && call_ensures(fin->0, (xn, rest.spec_split(size)), ())
                    &&& final(self).st() == fp_end(fs, c, scratch_track, size)
                }),
            final(self).cfg == old(self).cfg,
            final(self).wf(),
            final(self).cur_frame == Some(scratch_track.first().shifted(1).frame),
    {
        self.foreach_pos_of_register(register.as_register(), scratch_track, init, f, fin);
    }

    /// `foreach_pos_of_register_rev` on the cells of a binary register.
    #[verifier::spinoff_prover]
    pub fn foreach_pos_of_binregister_rev(
        &mut self,
        register: BinRegister,
        scratch_track: ScratchTrack,
        init: Option<impl FnOnce(&mut Cpu<'c>, ScratchTrack)>,
        f: impl FnOnce(&mut Cpu<'c>, Pos, ScratchTrack),
        fin: Option<impl FnOnce(&mut Cpu<'c>, ScratchTrack)>,
    )
        requires
            old(self).wf(),
            old(self).cur_frame is Some,
            reg_ok(register.as_register_spec()),
            scratch_room(scratch_track),
            init is Some ==> forall|x: &mut Cpu<'c>| x.cfg == old(self).cfg && x.wf() && x.cur_frame is Some
                ==> #[trigger] call_requires(init->0, (x, fpr_track(scratch_track, register.size as int).spec_split(1))),
            init is Some ==> forall|x: &mut Cpu<'c>| x.cfg == old(self).cfg && x.wf() && x.cur_frame is Some
                && #[trigger] call_ensures(init->0, (x, fpr_track(scratch_track, register.size as int).spec_split(1)), ())
                ==> final(x).cfg == x.cfg && final(x).wf() && final(x).cur_frame is Some,
            forall|x: &mut Cpu<'c>| x.cfg == old(self).cfg && x.wf() && x.cur_frame is Some
                ==> #[trigger] call_requires(f, (x, reg_at(register.as_register_spec(), register.size - 1), fpr_track(scratch_track, register.size as int).spec_split(1))),
            forall|x: &mut Cpu<'c>| x.cfg == old(self).cfg && x.wf() && x.cur_frame is Some
                && #[trigger] call_ensures(f, (x, reg_at(register.as_register_spec(), register.size - 1), fpr_track(scratch_track, register.size as int).spec_split(1)), ())
                ==> final(x).cfg == x.cfg && final(x).wf() && final(x).cur_frame is Some
                    && -0x40_0000 <= final(x).cur_frame.unwrap() < 0x40_0000,
            fin is Some ==> forall|x: &mut Cpu<'c>| x.cfg == old(self).cfg && x.wf() && x.cur_frame is Some
                ==> #[trigger] call_requires(fin->0, (x, fpr_track(scratch_track, register.size as int).spec_split(1))),
            fin is Some ==> forall|x: &mut Cpu<'c>| x.cfg == old(self).cfg && x.wf() && x.cur_frame is Some
                && #[trigger] call_ensures(fin->0, (x, fpr_track(scratch_track, register.size as int).spec_split(1)), ())
                ==> final(x).cfg == x.cfg && final(x).wf() && final(x).cur_frame is Some,
        ensures
            exists|xi: &mut Cpu<'c>, xf: &mut Cpu<'c>, xn: &mut Cpu<'c>|
                #![trigger call_ensures(f, (xf, reg_at(register.as_register_spec(), register.size - 1), fpr_track(scratch_track, register.size as int).spec_split(1)), ()), xi.st(), xn.st()]
                ({
                    let fs = old(self).fs();
                    let size = register.size as int;
                    let rest = fpr_track(scratch_track, size).spec_split(1);
                    let p = g_op_at(fs, old(self).st(), scratch_track.first(), Op::Dec);
                    let a = if init is Some { final(xi).st() } else { p };
                    let b = fpr_after(fs, a, scratch_track, size, final(xf).st());
                    let c = if fin is Some { final(xn).st() } else { b };
                    &&& init is Some ==> xi.cfg == old(self).cfg && xi.st() == p && call_ensures(init->0, (xi, rest), ())
                    &&& xf.cfg == old(self).cfg && xf.st() == g_op(child(fpr_loop(fs, a, scratch_track, size)), Op::Dec)
                    &&& call_ensures(f, (xf, reg_at(register.as_register_spec(), size - 1), rest), ())
                    &&& fin is Some ==> xn.cfg == old(self).cfg && xn.st() == b && call_ensures(fin->0, (xn, rest), ())
                    &&& final(self).st() == fpr_end(c, scratch_track, size)
                }),
            final(self).cfg == old(self).cfg,
            final(self).cur_frame is Some,
    {
        self.foreach_pos_of_register_rev(register.as_register(), scratch_track, init, f, fin);
    }
}

}
verus! {

/// The scratch cells of `foreach_val_of_binregister`: the fixed marker (second
/// cell), the moving marker and the value cell after the register's width.
pub open spec fn fv_s1(st: ScratchTrack) -> Pos {
    st.first().shifted(1)
}

pub open spec fn fv_s2(st: ScratchTrack, size: int) -> Pos {
    st.spec_split(2).spec_split(size - 1).first()
}

pub open spec fn fv_rest(st: ScratchTrack, size: int) -> ScratchTrack {
    st.spec_split(2).spec_split(size - 1).spec_split(2)
}

/// One round of copying the register's first cell into the value cell: walk to
/// the moving marker, add one there, and walk back.
pub open spec fn fv_inner(fs: int, c: CpuState, st: ScratchTrack, size: int) -> CpuState {
    let s1p = fv_s1(st);
    let s2p = fv_s2(st, size);
    let c1 = g_goto(fs, g_op_at(fs, g_op(c, Op::Dec), s1p, Op::Dec), s1p.shifted(1));
    let c2 = g_op_at(fs, g_op(g_sentinel(fs, c1, s2p, Op::Dec, Op::Inc, 1), Op::Inc), s2p.shifted(1), Op::Inc);
    g_sentinel(fs, g_goto(fs, c2, s2p.shifted(-1)), s1p, Op::Inc, Op::Dec, -1)
}

/// The generator at the outer loop.
pub open spec fn fv_loop(fs: int, s: CpuState, st: ScratchTrack, size: int) -> CpuState {
    let s1p = fv_s1(st);
    g_goto(fs, g_op_at(fs, g_op_at(fs, s, fv_s2(st, size), Op::Inc), s1p, Op::Dec), s1p)
}

/// Where `f` starts: the value of the cell under the fixed marker was copied
/// to the value cell.
pub open spec fn fv_f_in(fs: int, s: CpuState, r: Register, st: ScratchTrack) -> CpuState {
    let size = r.size as int;
    let s1p = fv_s1(st);
    let s2p = fv_s2(st, size);
    let r0 = reg_at(r, 0);
    let backup = s1p.shifted(-1);
    let c0 = g_op(child(fv_loop(fs, s, st, size)), Op::Inc);
    let c1 = g_copy_byte(fs, c0, r0, backup, s1p);
    let c2 = g_loop_while(fs, c1, r0, |c: CpuState| fv_inner(fs, c, st, size));
    let c3 = g_goto(fs, g_op_at(fs, g_moveadd(fs, c2, backup, r0), s1p, Op::Dec), s1p.shifted(1));
    g_op(g_sentinel(fs, c3, s2p, Op::Dec, Op::Inc, 1), Op::Inc)
}

/// The end, with `f` having ended in `x`.
pub open spec fn fv_end(fs: int, s: CpuState, r: Register, st: ScratchTrack, x: CpuState) -> CpuState {
    let size = r.size as int;
    let s1p = fv_s1(st);
    let s2p = fv_s2(st, size);
    let d1 = g_goto(fs, g_clr_at(fs, x, s2p.shifted(1)), s2p.shifted(-1));
    let d2 = g_goto(fs, g_op_at(fs, g_sentinel(fs, d1, s1p, Op::Inc, Op::Dec, -1), s1p.shifted(1), Op::Dec), s1p.shifted(1));
    let body_end = CpuState { frame: Some(s1p.frame as int), ..d2 };
    let b = g_op(fv_loop(fs, s, st, size), Op::Loop(g_goto(fs, body_end, s1p).code));
    CpuState { frame: Some(s2p.frame as int), ..b }
}

impl<'c> Cpu<'c> {
    /// Visits the cells of a binary register, first to last, with the cursor
    /// frame at the same place each round: the visited value is copied to a
    /// value cell past the register's width, `f` runs with it, and the cell is
    /// cleared again.
    #[verifier::spinoff_prover]
    pub fn foreach_val_of_binregister(
        &mut self,
        register: BinRegister,
        scratch_track: ScratchTrack,
        f: impl FnOnce(&mut Cpu<'c>, Pos, ScratchTrack),
    )
        requires
            old(self).wf(),
            old(self).cur_frame is Some,
            reg_ok(register.as_register_spec()),
            scratch_room(scratch_track),
            reg_at(register.as_register_spec(), 0) != fv_s1(scratch_track),
            forall|x: &mut Cpu<'c>| x.cfg == old(self).cfg && x.wf() && x.cur_frame is Some
                ==> #[trigger] call_requires(f, (x, fv_s2(scratch_track, register.size as int).shifted(1), fv_rest(scratch_track, register.size as int))),
            forall|x: &mut Cpu<'c>| x.cfg == old(self).cfg && x.wf() && x.cur_frame is Some
                && #[trigger] call_ensures(f, (x, fv_s2(scratch_track, register.size as int).shifted(1), fv_rest(scratch_track, register.size as int)), ())
                ==> final(x).cfg == x.cfg && final(x).wf() && final(x).cur_frame is Some,
        ensures
            exists|x: &mut Cpu<'c>|
                x.cfg == old(self).cfg && x.st() == fv_f_in(old(self).fs(), old(self).st(), register.as_register_spec(), scratch_track)
                && #[trigger] call_ensures(f, (x, fv_s2(scratch_track, register.size as int).shifted(1), fv_rest(scratch_track, register.size as int)), ())
                && final(self).st() == fv_end(old(self).fs(), old(self).st(), register.as_register_spec(), scratch_track, final(x).st()),
            final(self).cfg == old(self).cfg,
            final(self).cur_frame == Some(fv_s2(scratch_track, register.size as int).frame),
    {
        let ghost fs = self.fs();
        let (two, st1) = scratch_track.split_2();
        let sentinel1 = two[1];
        let st2 = st1.get_split_scratch(register.size - 1);
        let (two2, rest) = st2.split_2();
        let sentinel2 = two2[0];
        let val = two2[1];
        self.inc_at(sentinel2);
        self.dec_at(sentinel1);
        self.goto(sentinel1);
        let mut c = self.child();
        c.inc();
        let backup_pos = sentinel1.get_shifted(-1);
        let r0 = register.at(0);
        c.copy_byte(r0, backup_pos, sentinel1);
        c.goto(r0);
        let mut d = c.child();
        d.dec();
        d.dec_at(sentinel1);
        d.goto(sentinel1.get_shifted(1));
        d.goto_sentinel_right(sentinel2);
        d.inc_at(val);
        d.goto(sentinel2.get_shifted(-1));
        d.go_clear_downsentinel_left(sentinel1);
        c.close_loop_at(r0, d);
        c.moveadd_byte(backup_pos, r0);
        c.dec_at(sentinel1);
        c.goto(sentinel1.get_shifted(1));
        c.goto_sentinel_right(sentinel2);
        assert(val == fv_s2(scratch_track, register.size as int).shifted(1));
        assert(rest == fv_rest(scratch_track, register.size as int));
        f(&mut c, val, rest);
        c.clr_at(val);
        c.goto(sentinel2.get_shifted(-1));
        c.go_clear_downsentinel_left(sentinel1);
        c.dec_at(sentinel1.get_shifted(1));
        c.goto(sentinel1.get_shifted(1));
        c.cur_frame = Some(sentinel1.frame);
        self.close_loop_at(sentinel1, c);
        self.cur_frame = Some(sentinel2.frame);
    }
}

}
verus! {

/// The scratch cells of `foreach_val_of_binregister_rev`: the fixed marker
/// (first cell), and after the register's width the moving marker, a zero
/// cell and the value cell.
pub open spec fn fvr_s2(st: ScratchTrack, size: int) -> Pos {
    st.spec_split(1).spec_split(size - 1).first()
}

pub open spec fn fvr_rest(st: ScratchTrack, size: int) -> ScratchTrack {
    st.spec_split(1).spec_split(size - 1).spec_split(3)
}

/// One round of copying the register's last cell into the value cell.
pub open spec fn fvr_inner(fs: int, c: CpuState, st: ScratchTrack, size: int) -> CpuState {
    let s1p = st.first();
    let s2p = fvr_s2(st, size);
    let c1 = g_goto(fs, g_op_at(fs, g_op(c, Op::Dec), s2p, Op::Dec), s2p.shifted(-1));
    let c2 = g_op_at(fs, g_op(g_sentinel(fs, c1, s1p, Op::Dec, Op::Inc, -1), Op::Inc), s2p.shifted(2), Op::Inc);
    g_sentinel(fs, g_goto(fs, c2, s1p.shifted(1)), s2p, Op::Inc, Op::Dec, 1)
}

pub open spec fn fvr_loop(fs: int, s: CpuState, st: ScratchTrack, size: int) -> CpuState {
    let s2p = fvr_s2(st, size);
    g_goto(fs, g_op_at(fs, g_op_at(fs, s, st.first(), Op::Inc), s2p, Op::Dec), s2p)
}

pub open spec fn fvr_f_in(fs: int, s: CpuState, r: Register, st: ScratchTrack) -> CpuState {
    let size = r.size as int;
    let s1p = st.first();
    let s2p = fvr_s2(st, size);
    let rl = reg_at(r, size - 1);
    let backup = s2p.shifted(1);
    let c0 = g_op(child(fvr_loop(fs, s, st, size)), Op::Inc);
    let c1 = g_copy_byte(fs, c0, rl, backup, s2p);
    let c2 = g_loop_while(fs, c1, rl, |c: CpuState| fvr_inner(fs, c, st, size));
    let c3 = g_goto(fs, g_op_at(fs, g_moveadd(fs, c2, backup, rl), s2p, Op::Dec), s2p.shifted(-1));
    g_op(g_sentinel(fs, c3, s1p, Op::Dec, Op::Inc, -1), Op::Inc)
}

pub open spec fn fvr_end(fs: int, s: CpuState, r: Register, st: ScratchTrack, x: CpuState) -> CpuState {
    let size = r.size as int;
    let s1p = st.first();
    let s2p = fvr_s2(st, size);
    let d1 = g_goto(fs, g_clr_at(fs, x, s2p.shifted(2)), s1p.shifted(1));
    let d2 = g_goto(fs, g_op_at(fs, g_sentinel(fs, d1, s2p, Op::Inc, Op::Dec, 1), s2p.shifted(-1), Op::Dec), s2p.shifted(-1));
    let body_end = CpuState { frame: Some(s2p.frame as int), ..d2 };
    let b = g_op(fvr_loop(fs, s, st, size), Op::Loop(g_goto(fs, body_end, s2p).code));
    CpuState { frame: Some(s1p.frame as int), ..b }
}

impl<'c> Cpu<'c> {
    /// `foreach_val_of_binregister`, last cell first: the markers move left.
    #[verifier::spinoff_prover]
    pub fn foreach_val_of_binregister_rev(
        &mut self,
        register: BinRegister,
        scratch_track: ScratchTrack,
        f: impl FnOnce(&mut Cpu<'c>, Pos, ScratchTrack),
    )
        requires
            old(self).wf(),
            old(self).cur_frame is Some,
            reg_ok(register.as_register_spec()),
            scratch_room(scratch_track),
            reg_at(register.as_register_spec(), register.size - 1) != fvr_s2(scratch_track, register.size as int),
            forall|x: &mut Cpu<'c>| x.cfg == old(self).cfg && x.wf() && x.cur_frame is Some
                ==> #[trigger] call_requires(f, (x, fvr_s2(scratch_track, register.size as int).shifted(2), fvr_rest(scratch_track, register.size as int))),
            forall|x: &mut Cpu<'c>| x.cfg == old(self).cfg && x.wf() && x.cur_frame is Some
                && #[trigger] call_ensures(f, (x, fvr_s2(scratch_track, register.size as int).shifted(2), fvr_rest(scratch_track, register.size as int)), ())
                ==> final(x).cfg == x.cfg && final(x).wf() && final(x).cur_frame is Some,
        ensures
            exists|x: &mut Cpu<'c>|
                x.cfg == old(self).cfg && x.st() == fvr_f_in(old(self).fs(), old(self).st(), register.as_register_spec(), scratch_track)
                && #[trigger] call_ensures(f, (x, fvr_s2(scratch_track, register.size as int).shifted(2), fvr_rest(scratch_track, register.size as int)), ())
                && final(self).st() == fvr_end(old(self).fs(), old(self).st(), register.as_register_spec(), scratch_track, final(x).st()),
            final(self).cfg == old(self).cfg,
            final(self).cur_frame == Some(scratch_track.first().frame),
    {
        let (sentinel1, st1) = scratch_track.split_1();
        let st2 = st1.get_split_scratch(register.size - 1);
        let (three, rest) = st2.split_3();
        let sentinel2 = three[0];
        let val = three[2];
        self.inc_at(sentinel1);
        self.dec_at(sentinel2);
        self.goto(sentinel2);
        let mut c = self.child();
        c.inc();
        let backup_pos = sentinel2.get_shifted(1);
        let rl = register.last_pos();
        c.copy_byte(rl, backup_pos, sentinel2);
        c.goto(rl);
        let mut d = c.child();
        d.dec();
        d.dec_at(sentinel2);
        d.goto(sentinel2.get_shifted(-1));
        d.goto_sentinel_left(sentinel1);
        d.inc_at(val);
        d.goto(sentinel1.get_shifted(1));
        d.go_clear_downsentinel_right(sentinel2);
        c.close_loop_at(rl, d);
        c.moveadd_byte(backup_pos, rl);
        c.dec_at(sentinel2);
        c.goto(sentinel2.get_shifted(-1));
        c.goto_sentinel_left(sentinel1);
        assert(val == fvr_s2(scratch_track, register.size as int).shifted(2));
        assert(rest == fvr_rest(scratch_track, register.size as int));
        f(&mut c, val, rest);
        c.clr_at(val);
        c.goto(sentinel1.get_shifted(1));
        c.go_clear_downsentinel_right(sentinel2);
        c.dec_at(sentinel2.get_shifted(-1));
        c.goto(sentinel2.get_shifted(-1));
        c.cur_frame = Some(sentinel2.frame);
        self.close_loop_at(sentinel2, c);
        self.cur_frame = Some(sentinel1.frame);
    }
}

/// The scratch cells of `if_binregister_nonzero_else`: the counter (first
/// cell), the fixed marker (second), and the moving marker after the width.
pub open spec fn bne_s2(st: ScratchTrack, size: int) -> Pos {
    st.spec_split(2).spec_split(size - 1).first()
}

pub open spec fn bne_rest(st: ScratchTrack, size: int) -> ScratchTrack {
    st.spec_split(2).spec_split(size - 1).spec_split(1)
}

/// When the visited cell is not zero: keep the marker, walk to the fixed
/// marker, count one, and walk back.
pub open spec fn bne_found(fs: int, c: CpuState, st: ScratchTrack, size: int) -> CpuState {
    let s1p = st.first().shifted(1);
    let s2p = bne_s2(st, size);
    let c1 = g_goto(fs, g_op_at(fs, c, s2p, Op::Inc), s2p.shifted(-1));
    let c2 = g_op_at(fs, g_op(g_sentinel(fs, c1, s1p, Op::Dec, Op::Inc, -1), Op::Inc), st.first(), Op::Inc);
    g_sentinel(fs, g_goto(fs, c2, s1p.shifted(1)), s2p, Op::Dec, Op::Inc, 1)
}

/// One round of the counting loop, which visits the cells last to first.
pub open spec fn bne_round(fs: int, c: CpuState, r: Register, st: ScratchTrack) -> CpuState {
    let size = r.size as int;
    let s2p = bne_s2(st, size);
    let c1 = g_if_nonzero(fs, g_op(c, Op::Dec), reg_at(r, size - 1), bne_rest(st, size), |c: CpuState| bne_found(fs, c, st, size));
    let c2 = CpuState { frame: Some(s2p.frame as int), ..g_goto(fs, c1, s2p.shifted(-1)) };
    g_if_nonzero_else(fs, c2, s2p, bne_rest(st, size), |c: CpuState| g_clr_at(fs, c, s2p), |c: CpuState| g_op_at(fs, c, s2p, Op::Inc))
}

/// The generator after counting the nonzero cells of `r` in the first scratch cell.
pub open spec fn bne_count(fs: int, s: CpuState, r: Register, st: ScratchTrack) -> CpuState {
    let size = r.size as int;
    let s1p = st.first().shifted(1);
    let s2p = bne_s2(st, size);
    let l = g_goto(fs, g_op_at(fs, g_op_at(fs, s, s1p, Op::Inc), s2p, Op::Inc), s2p);
    let b = g_op(l, Op::Loop(g_goto(fs, bne_round(fs, child(l), r, st), s2p).code));
    CpuState { frame: Some(s1p.frame as int), ..b }
}

impl<'c> Cpu<'c> {
    /// The visit of one cell in `if_binregister_nonzero_else`.
    #[verifier::spinoff_prover]
    fn bne_visit(&mut self, register: BinRegister, scratch_track: ScratchTrack)
        requires
            old(self).wf(),
            old(self).cur_frame is Some,
            reg_ok(register.as_register_spec()),
            scratch_room(scratch_track),
        ensures
            final(self).st() == bne_round(old(self).fs(), old(self).st(), register.as_register_spec(), scratch_track),
            final(self).cfg == old(self).cfg,
            final(self).wf(),
            final(self).cur_frame is Some,
    {
        let ghost fs = self.fs();
        let size = register.size;
        let (two, st1) = scratch_track.split_2();
        let acc = two[0];
        let sentinel1 = two[1];
        let st2 = st1.get_split_scratch(size - 1);
        let (sentinel2, rest) = st2.split_1();
        let new_sentinel2 = sentinel2.get_shifted(-1);
        self.dec();
        let rl = register.last_pos();
        self.if_nonzero(rl, rest,
            |cpu: &mut Cpu<'c>, t: ScratchTrack|
                requires
                    pos_ok(sentinel2), pos_ok(new_sentinel2), pos_ok(sentinel1), pos_ok(acc), pos_ok(sentinel1.shifted(1)),
                    sentinel1.track == sentinel2.track, new_sentinel2.track == sentinel2.track,
                    old(cpu).wf(), old(cpu).cur_frame is Some,
                ensures
                    final(cpu).cur_frame is Some,
                    final(cpu).st() == bne_found(old(cpu).fs(), old(cpu).st(), scratch_track, size as int),
                    final(cpu).cfg == old(cpu).cfg,
                    final(cpu).wf()
                {
                    cpu.inc_at(sentinel2);
                    cpu.goto(new_sentinel2);
                    cpu.goto_sentinel_left(sentinel1);
                    cpu.inc_at(acc);
                    cpu.goto(sentinel1.get_shifted(1));
                    cpu.go_clear_sentinel_right(sentinel2);
                });
        self.goto(new_sentinel2);
        self.cur_frame = Some(sentinel2.frame);
        self.not(sentinel2, rest);
    }

    /// Runs `if_nonzero` if some cell of the binary register is not zero and
    /// `if_zero` if all are: a loop visits the cells last to first and counts the
    /// nonzero ones in the first scratch cell, which is cleared afterwards. The
    /// branches get the scratch track after the register's width.
    #[verifier::spinoff_prover]
    pub fn if_binregister_nonzero_else(
        &mut self,
        register: BinRegister,
        scratch_track: ScratchTrack,
        if_nonzero: impl FnOnce(&mut Cpu<'c>, ScratchTrack),
        if_zero: impl FnOnce(&mut Cpu<'c>, ScratchTrack),
    )
        requires
            old(self).wf(),
            old(self).cur_frame is Some,
            reg_ok(register.as_register_spec()),
            scratch_room(scratch_track),
            forall|x: &mut Cpu<'c>| x.cfg == old(self).cfg && x.wf() && x.cur_frame is Some
                ==> #[trigger] call_requires(if_nonzero, (x, bne_rest(scratch_track, register.size as int))),
            forall|x: &mut Cpu<'c>| x.cfg == old(self).cfg && x.wf() && x.cur_frame is Some
                && #[trigger] call_ensures(if_nonzero, (x, bne_rest(scratch_track, register.size as int)), ())
                ==> final(x).cfg == x.cfg && final(x).wf() && final(x).cur_frame is Some,
            forall|y: &mut Cpu<'c>| y.cfg == old(self).cfg && y.wf() && y.cur_frame is Some
                ==> #[trigger] call_requires(if_zero, (y, bne_rest(scratch_track, register.size as int))),
            forall|y: &mut Cpu<'c>| y.cfg == old(self).cfg && y.wf() && y.cur_frame is Some
                && #[trigger] call_ensures(if_zero, (y, bne_rest(scratch_track, register.size as int)), ())
                ==> final(y).cfg == y.cfg && final(y).wf() && final(y).cur_frame is Some,
        ensures
            exists|x: &mut Cpu<'c>, y: &mut Cpu<'c>|
                #![trigger call_ensures(if_nonzero, (x, bne_rest(scratch_track, register.size as int)), ()),
                    call_ensures(if_zero, (y, bne_rest(scratch_track, register.size as int)), ())]
                ({
                    let fs = old(self).fs();
                    let m = bne_count(fs, old(self).st(), register.as_register_spec(), scratch_track);
                    let acc = scratch_track.first();
                    let rest = bne_rest(scratch_track, register.size as int);
                    &&& x.cfg == old(self).cfg && x.st() == ine_then_in(fs, m, acc, rest)
                    &&& call_ensures(if_nonzero, (x, rest), ())
                    &&& y.cfg == old(self).cfg && y.st() == ine_else_in(fs, m, acc, rest, final(x).st())
                    &&& call_ensures(if_zero, (y, rest), ())
                    &&& final(self).st() == g_clr_at(fs, ine_result(fs, m, acc, rest, final(x).st(), final(y).st()), acc)
                }),
            final(self).cfg == old(self).cfg,
            final(self).wf(),
            final(self).cur_frame == Some(scratch_track.first().frame),
    {
        let size = register.size;
        let (two, st1) = scratch_track.split_2();
        let acc = two[0];
        let sentinel1 = two[1];
        let st2 = st1.get_split_scratch(size - 1);
        let (sentinel2, rest) = st2.split_1();
        self.inc_at(sentinel1);
        self.inc_at(sentinel2);
        self.goto(sentinel2);
        let mut c = self.child();
        c.bne_visit(register, scratch_track);
        self.close_loop_at(sentinel2, c);
        self.cur_frame = Some(sentinel1.frame);
        assert(rest == bne_rest(scratch_track, size as int));
        self.if_nonzero_else(acc, rest, if_nonzero, if_zero);
        self.clr_at(acc);
    }
}

}
verus! {

/// `foreach_pos_of_register` without `init` and `fin`, with the body `body`.
pub open spec fn g_foreach_pos(fs: int, s: CpuState, r: Register, st: ScratchTrack, body: spec_fn(CpuState) -> CpuState) -> CpuState {
    let size = r.size as int;
    let p = fp_start(fs, s, st);
    fp_end(fs, fp_after(fs, p, st, size, body(fp_body_in(fs, p, st, size))), st, size)
}

/// `foreach_pos_of_register_rev` without `init` and `fin`, with the body `body`.
pub open spec fn g_foreach_pos_rev(fs: int, s: CpuState, r: Register, st: ScratchTrack, body: spec_fn(CpuState) -> CpuState) -> CpuState {
    let size = r.size as int;
    let p = g_op_at(fs, s, st.first(), Op::Dec);
    fpr_end(fpr_after(fs, p, st, size, body(g_op(child(fpr_loop(fs, p, st, size)), Op::Dec))), st, size)
}

impl<'c> Cpu<'c> {
    /// Adds each cell of `from` onto the first cell of `to`, as seen from the
    /// visited cell (so `to` is walked along with `from`), clearing it first if asked.
    #[verifier::spinoff_prover]
    pub fn copy_binregister(&mut self, from: BinRegister, to: BinRegister, scratch_track: ScratchTrack, clear_to_first: bool)
        requires
            old(self).wf(),
            old(self).cur_frame is Some,
            reg_ok(from.as_register_spec()),
            reg_ok(to.as_register_spec()),
            scratch_room(scratch_track),
        ensures
            final(self).st() == g_foreach_pos(old(self).fs(), old(self).st(), from.as_register_spec(), scratch_track,
                |c: CpuState| {
                    let c1 = if clear_to_first { g_clr_at(old(self).fs(), c, reg_at(to.as_register_spec(), 0)) } else { c };
                    g_copy_auto(old(self).fs(), c1, reg_at(from.as_register_spec(), 0), reg_at(to.as_register_spec(), 0), scratch_track.spec_split(3))
                }),
            final(self).cfg == old(self).cfg,
            final(self).cur_frame is Some,
    {
        let to0 = to.at(0);
        self.foreach_pos_of_binregister(from, scratch_track,
            Some(|c: &mut Cpu<'c>, t: ScratchTrack| ensures *final(c) == *old(c) {}),
            |cpu: &mut Cpu<'c>, pos: Pos, t: ScratchTrack|
                requires near(pos), near(to0), scratch_ok(t), old(cpu).wf(), old(cpu).cur_frame is Some,
                ensures
                    final(cpu).cur_frame is Some,
                    final(cpu).st() == g_copy_auto(old(cpu).fs(),
                        if clear_to_first { g_clr_at(old(cpu).fs(), old(cpu).st(), to0) } else { old(cpu).st() }, pos, to0, t),
                    final(cpu).cfg == old(cpu).cfg,
                    final(cpu).wf()
                {
                    if clear_to_first {
                        cpu.clr_at(to0);
                    }
                    cpu.copy_byte_autoscratch(pos, to0, t);
                },
            Some(|c: &mut Cpu<'c>, t: ScratchTrack| ensures *final(c) == *old(c) {}));
    }
}

}
verus! {

impl<'c> Cpu<'c> {
    /// Moves each cell of the register `by` frames left, first cell first, with
    /// `foreach_pos_of_register` (the target cells should be zero).
    #[verifier::spinoff_prover]
    pub fn shift_register_left_oob_by(&mut self, register: Register, scratch_track: ScratchTrack, by: isize)
        requires
            old(self).wf(),
            old(self).cur_frame is Some,
            reg_ok(register),
            scratch_room(scratch_track),
            by > 0,
            mid(reg_at(register, 0).frame - by),
        ensures
            final(self).st() == g_foreach_pos(old(self).fs(), old(self).st(), register, scratch_track,
                |c: CpuState| g_moveadd(old(self).fs(), c, reg_at(register, 0), reg_at(register, 0).shifted(-by))),
            final(self).cfg == old(self).cfg,
            final(self).cur_frame is Some,
    {
        self.foreach_pos_of_register(register, scratch_track,
            Some(|c: &mut Cpu<'c>, t: ScratchTrack| ensures *final(c) == *old(c) {}),
            |cpu: &mut Cpu<'c>, pos: Pos, t: ScratchTrack|
                requires pos_ok(pos), mid(pos.frame - by), old(cpu).wf(), old(cpu).cur_frame is Some,
                ensures
                    final(cpu).cur_frame is Some,
                    final(cpu).st() == g_moveadd(old(cpu).fs(), old(cpu).st(), pos, pos.shifted(-by)),
                    final(cpu).cfg == old(cpu).cfg,
                    final(cpu).wf()
                { cpu.moveadd_byte(pos, pos.get_shifted(-by)); },
            Some(|c: &mut Cpu<'c>, t: ScratchTrack| ensures *final(c) == *old(c) {}));
    }

    /// Moves each cell of the register `by` frames right, last cell first, with
    /// `foreach_pos_of_register_rev` (the target cells should be zero).
    #[verifier::spinoff_prover]
    pub fn shift_register_right_oob_by(&mut self, register: Register, scratch_track: ScratchTrack, by: isize)
        requires
            old(self).wf(),
            old(self).cur_frame is Some,
            reg_ok(register),
            scratch_room(scratch_track),
            by > 0,
            mid(reg_at(register, register.size - 1).frame + by),
        ensures
            final(self).st() == g_foreach_pos_rev(old(self).fs(), old(self).st(), register, scratch_track,
                |c: CpuState| g_moveadd(old(self).fs(), c, reg_at(register, register.size - 1), reg_at(register, register.size - 1).shifted(by as int))),
            final(self).cfg == old(self).cfg,
            final(self).cur_frame is Some,
    {
        self.foreach_pos_of_register_rev(register, scratch_track,
            Some(|c: &mut Cpu<'c>, t: ScratchTrack| ensures *final(c) == *old(c) {}),
            |cpu: &mut Cpu<'c>, pos: Pos, t: ScratchTrack|
                requires near(pos), by > 0, mid(pos.frame + by), old(cpu).wf(), old(cpu).cur_frame is Some,
                ensures
                    final(cpu).cur_frame is Some,
                    -0x40_0000 <= final(cpu).cur_frame.unwrap() < 0x40_0000,
                    final(cpu).st() == g_moveadd(old(cpu).fs(), old(cpu).st(), pos, pos.shifted(by as int)),
                    final(cpu).cfg == old(cpu).cfg,
                    final(cpu).wf()
                { cpu.moveadd_byte(pos, pos.get_shifted(by)); },
            Some(|c: &mut Cpu<'c>, t: ScratchTrack| ensures *final(c) == *old(c) {}));
    }
}

}
verus! {

/// The `size` cells of `r` from its cell `off` on.
pub open spec fn reg_sub(r: Register, off: int, size: int) -> Register {
    Register { track: r.track, size: size as isize, offset: (r.offset + off) as isize }
}

impl<'c> Cpu<'c> {
    /// Shifts the register one cell left: the first cell is cleared and every
    /// other cell is moved onto the one before it.
    #[verifier::spinoff_prover]
    pub fn shift_register_left(&mut self, register: Register, scratch_track: ScratchTrack)
        requires
            old(self).wf(),
            old(self).cur_frame is Some,
            reg_ok(register),
            register.size >= 2,
            scratch_room(scratch_track),
        ensures
            final(self).st() == ({
                let fs = old(self).fs();
                let sub = reg_sub(register, 1, register.size - 1);
                g_foreach_pos(fs, g_clr_at(fs, old(self).st(), reg_at(register, 0)), sub, scratch_track,
                    |c: CpuState| g_moveadd(fs, c, reg_at(sub, 0), reg_at(sub, 0).shifted(-1)))
            }),
            final(self).cfg == old(self).cfg,
            final(self).cur_frame is Some,
    {
        self.clr_at(register.at(0));
        let sub = register.subview(1, register.size - 1);
        self.foreach_pos_of_register(sub, scratch_track,
            Some(|c: &mut Cpu<'c>, t: ScratchTrack| ensures *final(c) == *old(c) {}),
            |cpu: &mut Cpu<'c>, pos: Pos, t: ScratchTrack|
                requires near(pos), old(cpu).wf(), old(cpu).cur_frame is Some,
                ensures
                    final(cpu).cur_frame is Some,
                    final(cpu).st() == g_moveadd(old(cpu).fs(), old(cpu).st(), pos, pos.shifted(-1)),
                    final(cpu).cfg == old(cpu).cfg,
                    final(cpu).wf()
                { cpu.moveadd_byte(pos, pos.get_shifted(-1)); },
            Some(|c: &mut Cpu<'c>, t: ScratchTrack| ensures *final(c) == *old(c) {}));
    }

    /// Shifts the register one cell right: the last cell is cleared and every
    /// other cell is moved onto the one after it.
    #[verifier::spinoff_prover]
    pub fn shift_register_right(&mut self, register: Register, scratch_track: ScratchTrack)
        requires
            old(self).wf(),
            old(self).cur_frame is Some,
            reg_ok(register),
            register.size >= 2,
            scratch_room(scratch_track),
        ensures
            final(self).st() == ({
                let fs = old(self).fs();
                let sub = reg_sub(register, 0, register.size - 1);
                g_foreach_pos_rev(fs, g_clr_at(fs, old(self).st(), reg_at(register, register.size - 1)), sub, scratch_track,
                    |c: CpuState| g_moveadd(fs, c, reg_at(sub, sub.size - 1), reg_at(sub, sub.size - 1).shifted(1)))
            }),
            final(self).cfg == old(self).cfg,
            final(self).cur_frame is Some,
    {
        self.clr_at(register.at(register.size - 1));
        let sub = register.subview(0, register.size - 1);
        self.foreach_pos_of_register_rev(sub, scratch_track,
            Some(|c: &mut Cpu<'c>, t: ScratchTrack| ensures *final(c) == *old(c) {}),
            |cpu: &mut Cpu<'c>, pos: Pos, t: ScratchTrack|
                requires near(pos), pos.frame < 0x3F_0000, old(cpu).wf(), old(cpu).cur_frame is Some,
                ensures
                    final(cpu).cur_frame is Some,
                    -0x40_0000 <= final(cpu).cur_frame.unwrap() < 0x40_0000,
                    final(cpu).st() == g_moveadd(old(cpu).fs(), old(cpu).st(), pos, pos.shifted(1)),
                    final(cpu).cfg == old(cpu).cfg,
                    final(cpu).wf()
                { cpu.moveadd_byte(pos, pos.get_shifted(1)); },
            Some(|c: &mut Cpu<'c>, t: ScratchTrack| ensures *final(c) == *old(c) {}));
    }

    /// `shift_register_left` on a binary register.
    #[verifier::spinoff_prover]
    pub fn shift_binregister_left(&mut self, register: BinRegister, scratch_track: ScratchTrack)
        requires
            old(self).wf(),
            old(self).cur_frame is Some,
            reg_ok(register.as_register_spec()),
            register.size >= 2,
            scratch_room(scratch_track),
        ensures
            final(self).st() == ({
                let fs = old(self).fs();
                let r = register.as_register_spec();
                let sub = reg_sub(r, 1, r.size - 1);
                g_foreach_pos(fs, g_clr_at(fs, old(self).st(), reg_at(r, 0)), sub, scratch_track,
                    |c: CpuState| g_moveadd(fs, c, reg_at(sub, 0), reg_at(sub, 0).shifted(-1)))
            }),
            final(self).cfg == old(self).cfg,
            final(self).cur_frame is Some,
    {
        self.shift_register_left(register.as_register(), scratch_track);
    }

    /// `shift_register_right` on a binary register.
    #[verifier::spinoff_prover]
    pub fn shift_binregister_right(&mut self, register: BinRegister, scratch_track: ScratchTrack)
        requires
            old(self).wf(),
            old(self).cur_frame is Some,
            reg_ok(register.as_register_spec()),
            register.size >= 2,
            scratch_room(scratch_track),
        ensures
            final(self).st() == ({
                let fs = old(self).fs();
                let r = register.as_register_spec();
                let sub = reg_sub(r, 0, r.size - 1);
                g_foreach_pos_rev(fs, g_clr_at(fs, old(self).st(), reg_at(r, r.size - 1)), sub, scratch_track,
                    |c: CpuState| g_moveadd(fs, c, reg_at(sub, sub.size - 1), reg_at(sub, sub.size - 1).shifted(1)))
            }),
            final(self).cfg == old(self).cfg,
            final(self).cur_frame is Some,
    {
        self.shift_register_right(register.as_register(), scratch_track);
    }
}

}
verus! {

/// Print one cell as the digit `0` or `1`: copy it to the first scratch cell,
/// add the code of `0`, print it and clear it.
pub open spec fn g_print_bit(fs: int, c: CpuState, pos: Pos, t: ScratchTrack) -> CpuState {
    g_clr(g_op(g_add_const(fs, g_copy_byte(fs, c, pos, t.first(), t.first().shifted(1)), t.first(), 48), Op::Out))
}

/// One step of adding one to a binary register, at `bit`: if the carry is set,
/// clear it, and flip the bit, setting the carry again when the bit was 1.
pub open spec fn g_inc_bit(fs: int, c: CpuState, bit: Pos, carry: Pos, rest: ScratchTrack) -> CpuState {
    g_if_nonzero(fs, c, carry, rest, |c2: CpuState| g_if_nonzero_else(fs, g_clr_at(fs, c2, carry), bit, rest,
        |c3: CpuState| g_op_at(fs, g_clr_at(fs, c3, bit), carry, Op::Inc),
        |c3: CpuState| g_op_at(fs, c3, bit, Op::Inc)))
}

/// The steps for the last `n` bits of `r`, last bit first.
pub open spec fn g_inc_bits(fs: int, s: CpuState, r: Register, carry: Pos, rest: ScratchTrack, n: int) -> CpuState
    decreases n,
{
    if n <= 0 {
        s
    } else {
        g_inc_bit(fs, g_inc_bits(fs, s, r, carry, rest, n - 1), reg_at(r, r.size - n), carry, rest)
    }
}

impl<'c> Cpu<'c> {
    /// Prints `0b` and then the cells of the binary register as digits.
    #[verifier::spinoff_prover]
    #[verifier::rlimit(50)]
    pub fn print_binregister_in_binary(&mut self, binregister: BinRegister, scratch_track: ScratchTrack)
        requires
            old(self).wf(),
            old(self).cur_frame is Some,
            reg_ok(binregister.as_register_spec()),
            scratch_room(scratch_track),
            reg_at(binregister.as_register_spec(), 0) != scratch_track.spec_split(3).first().shifted(1),
        ensures
            final(self).st() == ({
                let fs = old(self).fs();
                g_foreach_pos(fs, g_print_text(fs, old(self).st(), seq!['0', 'b'], scratch_track.first()),
                    binregister.as_register_spec(), scratch_track,
                    |c: CpuState| g_print_bit(fs, c, reg_at(binregister.as_register_spec(), 0), scratch_track.spec_split(3)))
            }),
            final(self).cfg == old(self).cfg,
            final(self).cur_frame is Some,
    {
        let ghost fs = self.fs();
        let ghost s0 = self.st();
        proof {
            reveal_strlit("0b");
            assert("0b"@ =~= seq!['0', 'b']);
        }
        self.print_text("0b", scratch_track);
        assert(self.st() == g_print_text(fs, s0, seq!['0', 'b'], scratch_track.first()));
        self.foreach_pos_of_binregister(binregister, scratch_track,
            Some(|c: &mut Cpu<'c>, t: ScratchTrack| ensures *final(c) == *old(c) {}),
            |cpu: &mut Cpu<'c>, pos: Pos, t: ScratchTrack|
                requires pos_ok(pos), scratch_ok(t), pos != t.first().shifted(1), old(cpu).wf(), old(cpu).cur_frame is Some,
                ensures
                    final(cpu).cur_frame is Some,
                    final(cpu).st() == g_print_bit(old(cpu).fs(), old(cpu).st(), pos, t),
                    final(cpu).cfg == old(cpu).cfg,
                    final(cpu).wf()
                {
                    let (two, _) = t.split_2();
                    let prnt = two[0];
                    let scratch1 = two[1];
                    cpu.copy_byte(pos, prnt, scratch1);
                    cpu.add_const_to_byte(prnt, 48);
                    cpu.out();
                    cpu.clr();
                },
            Some(|c: &mut Cpu<'c>, t: ScratchTrack| ensures *final(c) == *old(c) {}));
    }

    /// One step of `inc_binregister_unrolled`.
    #[verifier::spinoff_prover]
    fn inc_bit_step(&mut self, bit: Pos, carry: Pos, rest: ScratchTrack)
        requires
            old(self).can_goto(carry),
            pos_ok(bit),
            scratch_ok(rest),
        ensures
            final(self).st() == g_inc_bit(old(self).fs(), old(self).st(), bit, carry, rest),
            final(self).cfg == old(self).cfg,
            final(self).wf(),
            final(self).cur_frame is Some,
    {
        self.if_nonzero(carry, rest,
            |cpu: &mut Cpu<'c>, t: ScratchTrack|
                requires pos_ok(bit), pos_ok(carry), scratch_ok(rest), old(cpu).wf(), old(cpu).cur_frame is Some,
                ensures
                    final(cpu).cur_frame is Some,
                    final(cpu).st() == g_if_nonzero_else(old(cpu).fs(), g_clr_at(old(cpu).fs(), old(cpu).st(), carry), bit, rest,
                        |c3: CpuState| g_op_at(old(cpu).fs(), g_clr_at(old(cpu).fs(), c3, bit), carry, Op::Inc),
                        |c3: CpuState| g_op_at(old(cpu).fs(), c3, bit, Op::Inc)),
                    final(cpu).cfg == old(cpu).cfg,
                    final(cpu).wf()
                {
                    let ghost fs = cpu.fs();
                    cpu.clr_at(carry);
                    let ghost s1 = cpu.st();
                    cpu.if_nonzero_else(bit, rest,
                        |c: &mut Cpu<'c>, u: ScratchTrack|
                            requires pos_ok(bit), pos_ok(carry), old(c).wf(), old(c).cur_frame is Some,
                            ensures
                                final(c).cur_frame is Some,
                                final(c).st() == g_op_at(old(c).fs(), g_clr_at(old(c).fs(), old(c).st(), bit), carry, Op::Inc),
                                final(c).cfg == old(c).cfg,
                                final(c).wf()
                            {
                                c.clr_at(bit);
                                c.inc_at(carry);
                            },
                        |c: &mut Cpu<'c>, u: ScratchTrack|
                            requires pos_ok(bit), old(c).wf(), old(c).cur_frame is Some,
                            ensures
                                final(c).cur_frame is Some,
                                final(c).st() == g_op_at(old(c).fs(), old(c).st(), bit, Op::Inc),
                                final(c).cfg == old(c).cfg,
                                final(c).wf()
                            {
                                c.inc_at(bit);
                            });
                    proof {
                        lemma_ine_parts(fs, s1, bit, rest,
                            |c3: CpuState| g_op_at(fs, g_clr_at(fs, c3, bit), carry, Op::Inc),
                            |c3: CpuState| g_op_at(fs, c3, bit, Op::Inc));
                    }
                });
    }

    /// Adds one to a binary register (last cell least significant) with a carry
    /// in the first scratch cell, one step per bit; the carry out is moved to
    /// `result_carry_pos` if given, and cleared otherwise.
    #[verifier::spinoff_prover]
    pub fn inc_binregister_unrolled(&mut self, bin_register: BinRegister, result_carry_pos: Option<Pos>, scratch_track: ScratchTrack)
        requires
            old(self).wf(),
            old(self).cur_frame is Some,
            reg_ok(bin_register.as_register_spec()),
            scratch_room(scratch_track),
            result_carry_pos is Some ==> pos_ok(result_carry_pos->0),
        ensures
            final(self).st() == ({
                let fs = old(self).fs();
                let carry = scratch_track.first();
                let s1 = g_inc_bits(fs, g_op_at(fs, old(self).st(), carry, Op::Inc), bin_register.as_register_spec(),
                    carry, scratch_track.spec_split(1), bin_register.size as int);
                match result_carry_pos {
                    Some(p) => g_moveadd(fs, s1, carry, p),
                    None => g_clr_at(fs, s1, carry),
                }
            }),
            final(self).cfg == old(self).cfg,
            final(self).cur_frame is Some,
    {
        let ghost fs = self.fs();
        let (carry, rest) = scratch_track.split_1();
        self.inc_at(carry);
        let ghost s0 = self.st();
        let mut i: isize = bin_register.size;
        while i > 0
            invariant
                0 <= i <= bin_register.size,
                reg_ok(bin_register.as_register_spec()),
                scratch_room(scratch_track),
                carry == scratch_track.first(),
                rest == scratch_track.spec_split(1),
                self.wf(),
                self.cur_frame is Some,
                self.cfg == old(self).cfg,
                fs == self.fs(),
                self.st() == g_inc_bits(fs, s0, bin_register.as_register_spec(), carry, rest, bin_register.size - i),
            decreases i,
        {
            i = i - 1;
            let bit = bin_register.at(i);
            assert(bit == reg_at(bin_register.as_register_spec(), bin_register.size - (bin_register.size - i)));
            self.inc_bit_step(bit, carry, rest);
        }
        match result_carry_pos {
            Some(p) => self.moveadd_byte(carry, p),
            None => self.clr_at(carry),
        }
    }
}

}
verus! {

/// The loop body of `div_u8s`, on the copy of `a` (first scratch cell), the
/// countdown from `b` (second) and the count since the last full round
/// (third): take one from the copy of `a` and from the countdown and add one
/// to the count; when the countdown reaches zero, refill it from `b`, clear the
/// count and add one to `div`.
pub open spec fn g_div_round(fs: int, c: CpuState, b: Pos, div: Pos, st: ScratchTrack) -> CpuState {
    let a_cpy = st.first();
    let b_cpy = st.first().shifted(1);
    let r_cpy = st.first().shifted(2);
    let rest = st.spec_split(3);
    let c1 = g_op_at(fs, g_op_at(fs, g_op_at(fs, c, a_cpy, Op::Dec), r_cpy, Op::Inc), b_cpy, Op::Dec);
    g_if_nonzero_else(fs, c1, b_cpy, rest,
        |c2: CpuState| c2,
        |c2: CpuState| g_op_at(fs, g_clr_at(fs, g_copy_auto(fs, c2, b, b_cpy, rest), r_cpy), div, Op::Inc))
}

/// The loop body of `div_u8_by_const`.
pub open spec fn g_div_const_round(fs: int, c: CpuState, b: u8, div: Pos, st: ScratchTrack) -> CpuState {
    let a_cpy = st.first();
    let b_cpy = st.first().shifted(1);
    let r_cpy = st.first().shifted(2);
    let rest = st.spec_split(3);
    let c1 = g_op_at(fs, g_op_at(fs, g_op_at(fs, c, a_cpy, Op::Dec), r_cpy, Op::Inc), b_cpy, Op::Dec);
    g_if_nonzero_else(fs, c1, b_cpy, rest,
        |c2: CpuState| c2,
        |c2: CpuState| g_op_at(fs, g_clr_at(fs, g_set_byte(fs, c2, b_cpy, b), r_cpy), div, Op::Inc))
}

/// `div_u8s` on the cells `a`, `b`, `div` and `rem`.
pub open spec fn g_div_u8s(fs: int, s: CpuState, a: Pos, b: Pos, div: Pos, rem: Pos, st: ScratchTrack) -> CpuState {
    let a_cpy = st.first();
    let b_cpy = st.first().shifted(1);
    let r_cpy = st.first().shifted(2);
    let rest = st.spec_split(3);
    let s1 = g_copy_auto(fs, g_copy_auto(fs, s, a, a_cpy, rest), b, b_cpy, rest);
    let s2 = g_loop_while(fs, s1, a_cpy, |c: CpuState| g_div_round(fs, c, b, div, st));
    g_clr_at(fs, g_moveadd(fs, s2, r_cpy, rem), b_cpy)
}

/// `div_u8_by_const` on the cell `a`, the divisor `b` and the cells `div` and `rem`.
pub open spec fn g_div_u8_by_const(fs: int, s: CpuState, a: Pos, b: u8, div: Pos, rem: Pos, st: ScratchTrack) -> CpuState {
    let a_cpy = st.first();
    let b_cpy = st.first().shifted(1);
    let r_cpy = st.first().shifted(2);
    let rest = st.spec_split(3);
    let s1 = g_set_byte(fs, g_copy_auto(fs, s, a, a_cpy, rest), b_cpy, b);
    let s2 = g_loop_while(fs, s1, a_cpy, |c: CpuState| g_div_const_round(fs, c, b, div, st));
    g_clr_at(fs, g_moveadd(fs, s2, r_cpy, rem), b_cpy)
}

impl<'c> Cpu<'c> {
    /// Adds `a / b` to `div` and `a % b` to `rem`: a copy of `a` is counted
    /// down, and each time `b` steps have passed `div` counts one; the steps
    /// since the last full round are added to `rem`.
    #[verifier::spinoff_prover]
    pub fn div_u8s(&mut self, a: Pos, b: Pos, div: Pos, rem: Pos, scratch_track: ScratchTrack)
        requires
            old(self).wf(),
            old(self).cur_frame is Some,
            near(a),
            near(b),
            pos_ok(div),
            pos_ok(rem),
            scratch_room(scratch_track),
        ensures
            final(self).st() == g_div_u8s(old(self).fs(), old(self).st(), a, b, div, rem, scratch_track),
            final(self).cfg == old(self).cfg,
            final(self).wf(),
            final(self).cur_frame is Some,
    {
        let ghost fs = self.fs();
        let (three, rest) = scratch_track.split_3();
        let a_cpy = three[0];
        let b_cpy = three[1];
        let r_cpy = three[2];
        self.copy_byte_autoscratch(a, a_cpy, rest);
        self.copy_byte_autoscratch(b, b_cpy, rest);
        self.goto(a_cpy);
        let mut c = self.child();
        let ghost c0 = c.st();
        c.dec_at(a_cpy);
        c.inc_at(r_cpy);
        c.dec_at(b_cpy);
        let ghost c1 = c.st();
        let t = c.ine_open(b_cpy, rest);
        let mut e = c.ine_middle(t, rest);
        e.copy_byte_autoscratch(b, b_cpy, rest);
        e.clr_at(r_cpy);
        e.inc_at(div);
        c.ine_close(e, rest);
        proof {
            crate::cpu_flow::lemma_ine_parts(fs, c1, b_cpy, rest,
                |c2: CpuState| c2,
                |c2: CpuState| g_op_at(fs, g_clr_at(fs, g_copy_auto(fs, c2, b, b_cpy, rest), r_cpy), div, Op::Inc));
        }
        assert(c.st() == g_div_round(fs, c0, b, div, scratch_track));
        self.close_loop_at(a_cpy, c);
        self.moveadd_byte(r_cpy, rem);
        self.clr_at(b_cpy);
    }

    /// `div_u8s` with a constant divisor `b`: adds `a / b` to `div` and
    /// `a % b` to `rem`.
    #[verifier::spinoff_prover]
    pub fn div_u8_by_const(&mut self, a: Pos, b: u8, div: Pos, rem: Pos, scratch_track: ScratchTrack)
        requires
            old(self).wf(),
            old(self).cur_frame is Some,
            near(a),
            pos_ok(div),
            pos_ok(rem),
            scratch_room(scratch_track),
        ensures
            final(self).st() == g_div_u8_by_const(old(self).fs(), old(self).st(), a, b, div, rem, scratch_track),
            final(self).cfg == old(self).cfg,
            final(self).wf(),
            final(self).cur_frame is Some,
    {
        let ghost fs = self.fs();
        let (three, rest) = scratch_track.split_3();
        let a_cpy = three[0];
        let b_cpy = three[1];
        let r_cpy = three[2];
        self.copy_byte_autoscratch(a, a_cpy, rest);
        self.set_byte(b_cpy, b);
        self.goto(a_cpy);
        let mut c = self.child();
        let ghost c0 = c.st();
        c.dec_at(a_cpy);
        c.inc_at(r_cpy);
        c.dec_at(b_cpy);
        let ghost c1 = c.st();
        let t = c.ine_open(b_cpy, rest);
        let mut e = c.ine_middle(t, rest);
        e.set_byte(b_cpy, b);
        e.clr_at(r_cpy);
        e.inc_at(div);
        c.ine_close(e, rest);
        proof {
            crate::cpu_flow::lemma_ine_parts(fs, c1, b_cpy, rest,
                |c2: CpuState| c2,
                |c2: CpuState| g_op_at(fs, g_clr_at(fs, g_set_byte(fs, c2, b_cpy, b), r_cpy), div, Op::Inc));
        }
        assert(c.st() == g_div_const_round(fs, c0, b, div, scratch_track));
        self.close_loop_at(a_cpy, c);
        self.moveadd_byte(r_cpy, rem);
        self.clr_at(b_cpy);
    }
}


}
verus! {

/// The loop body of `cmp_2_u8s`, on the copies of `a` and `b` (first two
/// scratch cells) and the flag (third): count both copies down while both are
/// nonzero; when one runs out, stop and set `cmp` to 1, 0 or -1.
pub open spec fn g_cmp_round(fs: int, c: CpuState, cmp: Pos, st: ScratchTrack) -> CpuState {
    let a_cpy = st.first();
    let b_cpy = st.first().shifted(1);
    let kg = st.first().shifted(2);
    let rest = st.spec_split(3);
    g_if_nonzero_else(fs, c, a_cpy, rest,
        |c2: CpuState| g_if_nonzero_else(fs, c2, b_cpy, rest,
            |c3: CpuState| g_op_at(fs, g_op_at(fs, c3, a_cpy, Op::Dec), b_cpy, Op::Dec),
            |c3: CpuState| g_op_at(fs, g_op_at(fs, c3, kg, Op::Dec), cmp, Op::Inc)),
        |c2: CpuState| g_if_nonzero(fs, g_op_at(fs, c2, kg, Op::Dec), b_cpy, rest, |c3: CpuState| g_op_at(fs, c3, cmp, Op::Dec)))
}

#[verifier::opaque]
pub open spec fn g_cmp_u8s(fs: int, s: CpuState, a: Pos, b: Pos, cmp: Pos, st: ScratchTrack) -> CpuState {
    let a_cpy = st.first();
    let b_cpy = st.first().shifted(1);
    let kg = st.first().shifted(2);
    let rest = st.spec_split(3);
    let s1 = g_op_at(fs, g_copy_auto(fs, g_copy_auto(fs, s, a, a_cpy, rest), b, b_cpy, rest), kg, Op::Inc);
    let s2 = g_loop_while(fs, s1, kg, |c: CpuState| g_cmp_round(fs, c, cmp, st));
    g_clr_at(fs, g_clr_at(fs, s2, a_cpy), b_cpy)
}

/// The register without its first cell.
pub open spec fn reg_tail(r: Register) -> Register {
    Register { track: r.track, size: (r.size - 1) as isize, offset: (r.offset + 1) as isize }
}

/// `cmp_2_uint_registers`: compare the first cells, and while they are equal
/// go on with the rest.
pub open spec fn g_cmp_uint_regs(fs: int, s: CpuState, a: Register, b: Register, cmp: Pos, st: ScratchTrack) -> CpuState
    decreases a.size,
{
    let s1 = g_cmp_u8s(fs, s, reg_at(a, 0), reg_at(b, 0), cmp, st);
    if a.size > 1 {
        let th = ine_then_in(fs, s1, cmp, st);
        ine_result(fs, s1, cmp, st, th, g_cmp_uint_regs(fs, ine_else_in(fs, s1, cmp, st, th), reg_tail(a), reg_tail(b), cmp, st))
    } else {
        s1
    }
}

impl<'c> Cpu<'c> {
    /// Sets `cmp_result` (which should be zero) to 1 if `a > b`, -1 if `a < b`,
    /// and leaves it at 0 if they are equal, counting copies of both down.
    #[verifier::spinoff_prover]
    pub fn cmp_2_u8s(&mut self, a: Pos, b: Pos, cmp_result: Pos, scratch_track: ScratchTrack)
        requires
            old(self).wf(),
            old(self).cur_frame is Some,
            near(a),
            near(b),
            pos_ok(cmp_result),
            scratch_room(scratch_track),
        ensures
            final(self).st() == g_cmp_u8s(old(self).fs(), old(self).st(), a, b, cmp_result, scratch_track),
            final(self).cfg == old(self).cfg,
            final(self).wf(),
            final(self).cur_frame is Some,
    {
        let ghost fs = self.fs();
        let (three, rest) = scratch_track.split_3();
        let a_cpy = three[0];
        let b_cpy = three[1];
        let kg = three[2];
        self.copy_byte_autoscratch(a, a_cpy, rest);
        self.copy_byte_autoscratch(b, b_cpy, rest);
        self.inc_at(kg);
        self.goto(kg);
        let mut c = self.child();
        c.cmp_round(cmp_result, scratch_track);
        self.close_loop_at(kg, c);
        self.clr_at(a_cpy);
        self.clr_at(b_cpy);
        proof { reveal(g_cmp_u8s); }
    }

    /// The loop body of `cmp_2_u8s`.
    #[verifier::spinoff_prover]
    fn cmp_round(&mut self, cmp_result: Pos, scratch_track: ScratchTrack)
        requires
            old(self).wf(),
            old(self).cur_frame is Some,
            pos_ok(cmp_result),
            scratch_room(scratch_track),
        ensures
            final(self).st() == g_cmp_round(old(self).fs(), old(self).st(), cmp_result, scratch_track),
            final(self).cfg == old(self).cfg,
            final(self).wf(),
            final(self).cur_frame is Some,
    {
        let ghost fs = self.fs();
        let ghost c0 = self.st();
        let (three, rest) = scratch_track.split_3();
        let a_cpy = three[0];
        let b_cpy = three[1];
        let kg = three[2];
        let mut t = self.ine_open(a_cpy, rest);
        let ghost t0 = t.st();
        let mut tt = t.ine_open(b_cpy, rest);
        tt.dec_at(a_cpy);
        tt.dec_at(b_cpy);
        let mut te = t.ine_middle(tt, rest);
        te.dec_at(kg);
        te.inc_at(cmp_result);
        t.ine_close(te, rest);
        proof {
            lemma_ine_parts(fs, t0, b_cpy, rest,
                |c3: CpuState| g_op_at(fs, g_op_at(fs, c3, a_cpy, Op::Dec), b_cpy, Op::Dec),
                |c3: CpuState| g_op_at(fs, g_op_at(fs, c3, kg, Op::Dec), cmp_result, Op::Inc));
        }
        let mut e = self.ine_middle(t, rest);
        e.dec_at(kg);
        e.count_if_nonzero_dec(b_cpy, cmp_result, rest);
        self.ine_close(e, rest);
        proof {
            lemma_ine_parts(fs, c0, a_cpy, rest,
                |c2: CpuState| g_if_nonzero_else(fs, c2, b_cpy, rest,
                    |c3: CpuState| g_op_at(fs, g_op_at(fs, c3, a_cpy, Op::Dec), b_cpy, Op::Dec),
                    |c3: CpuState| g_op_at(fs, g_op_at(fs, c3, kg, Op::Dec), cmp_result, Op::Inc)),
                |c2: CpuState| g_if_nonzero(fs, g_op_at(fs, c2, kg, Op::Dec), b_cpy, rest, |c3: CpuState| g_op_at(fs, c3, cmp_result, Op::Dec)));
        }
    }

    /// Subtracts one from `acc` if the cell `cond` is not zero.
    #[verifier::spinoff_prover]
    fn count_if_nonzero_dec(&mut self, cond: Pos, acc: Pos, st: ScratchTrack)
        requires
            old(self).can_goto(cond),
            pos_ok(acc),
            scratch_ok(st),
        ensures
            final(self).st() == g_if_nonzero(old(self).fs(), old(self).st(), cond, st, |c: CpuState| g_op_at(old(self).fs(), c, acc, Op::Dec)),
            final(self).cfg == old(self).cfg,
            final(self).wf(),
            final(self).cur_frame is Some,
    {
        self.if_nonzero(cond, st,
            |c: &mut Cpu<'c>, t: ScratchTrack|
                requires pos_ok(acc), old(c).wf(), old(c).cur_frame is Some,
                ensures
                    final(c).cur_frame is Some,
                    final(c).st() == g_op_at(old(c).fs(), old(c).st(), acc, Op::Dec),
                    final(c).cfg == old(c).cfg,
                    final(c).wf()
                { c.dec_at(acc); });
    }

    /// Compares two registers of the same size as unsigned numbers, first cell
    /// most significant: `cmp_result` (which should be zero) becomes 1, 0 or -1.
    #[verifier::spinoff_prover]
    pub fn cmp_2_uint_registers(&mut self, a: Register, b: Register, cmp_result: Pos, scratch_track: ScratchTrack)
        requires
            old(self).wf(),
            old(self).cur_frame is Some,
            reg_ok(a),
            reg_ok(b),
            a.size == b.size,
            pos_ok(cmp_result),
            scratch_room(scratch_track),
        ensures
            final(self).st() == g_cmp_uint_regs(old(self).fs(), old(self).st(), a, b, cmp_result, scratch_track),
            final(self).cfg == old(self).cfg,
            final(self).wf(),
            final(self).cur_frame is Some,
        decreases a.size,
    {
        self.cmp_2_u8s(a.at(0), b.at(0), cmp_result, scratch_track);
        let ghost s1 = self.st();
        if a.size > 1 {
            let c = self.ine_open(cmp_result, scratch_track);
            let mut c2 = self.ine_middle(c, scratch_track);
            c2.cmp_2_uint_registers(a.subview_tail(a.size - 1), b.subview_tail(b.size - 1), cmp_result, scratch_track);
            self.ine_close(c2, scratch_track);
        }
    }
}

}
verus! {

/// The number of cells of a binary register.
pub open spec fn bin_width(r: BinRegister) -> int {
    r.size as int
}

impl<'c> Cpu<'c> {
    /// Branches three ways on a signed binary register: `if_lt_zero` when its
    /// first (sign) cell is set, and otherwise `if_gt_zero` or `if_zero` as the
    /// register has a nonzero cell or not.
    #[verifier::spinoff_prover]
    pub fn cmp_binregister(
        &mut self,
        register: BinRegister,
        scratch_track: ScratchTrack,
        if_lt_zero: impl FnOnce(&mut Cpu<'c>, ScratchTrack),
        if_zero: impl FnOnce(&mut Cpu<'c>, ScratchTrack),
        if_gt_zero: impl FnOnce(&mut Cpu<'c>, ScratchTrack),
    )
        requires
            old(self).wf(),
            old(self).cur_frame is Some,
            reg_ok(register.as_register_spec()),
            scratch_room(scratch_track),
            forall|x: &mut Cpu<'c>| x.cfg == old(self).cfg && x.wf() && x.cur_frame is Some
                ==> #[trigger] call_requires(if_lt_zero, (x, scratch_track)),
            forall|x: &mut Cpu<'c>| x.cfg == old(self).cfg && x.wf() && x.cur_frame is Some
                && #[trigger] call_ensures(if_lt_zero, (x, scratch_track), ())
                ==> final(x).cfg == x.cfg && final(x).wf() && final(x).cur_frame is Some,
            forall|y: &mut Cpu<'c>| y.cfg == old(self).cfg && y.wf() && y.cur_frame is Some
                ==> #[trigger] call_requires(if_gt_zero, (y, bne_rest(scratch_track, bin_width(register)))),
            forall|y: &mut Cpu<'c>| y.cfg == old(self).cfg && y.wf() && y.cur_frame is Some
                && #[trigger] call_ensures(if_gt_zero, (y, bne_rest(scratch_track, bin_width(register))), ())
                ==> final(y).cfg == y.cfg && final(y).wf() && final(y).cur_frame is Some,
            forall|z: &mut Cpu<'c>| z.cfg == old(self).cfg && z.wf() && z.cur_frame is Some
                ==> #[trigger] call_requires(if_zero, (z, bne_rest(scratch_track, bin_width(register)))),
            forall|z: &mut Cpu<'c>| z.cfg == old(self).cfg && z.wf() && z.cur_frame is Some
                && #[trigger] call_ensures(if_zero, (z, bne_rest(scratch_track, bin_width(register))), ())
                ==> final(z).cfg == z.cfg && final(z).wf() && final(z).cur_frame is Some,
        ensures
            exists|x: &mut Cpu<'c>, y: &mut Cpu<'c>, z: &mut Cpu<'c>|
                #![trigger call_ensures(if_lt_zero, (x, scratch_track), ()),
                    call_ensures(if_gt_zero, (y, bne_rest(scratch_track, bin_width(register))), ()),
                    call_ensures(if_zero, (z, bne_rest(scratch_track, bin_width(register))), ())]
                ({
                    let fs = old(self).fs();
                    let r0 = reg_at(register.as_register_spec(), 0);
                    let e = ine_else_in(fs, old(self).st(), r0, scratch_track, final(x).st());
                    let m = bne_count(fs, e, register.as_register_spec(), scratch_track);
                    let acc = scratch_track.first();
                    let rest = bne_rest(scratch_track, bin_width(register));
                    &&& x.cfg == old(self).cfg && x.st() == ine_then_in(fs, old(self).st(), r0, scratch_track)
                    &&& call_ensures(if_lt_zero, (x, scratch_track), ())
                    &&& y.cfg == old(self).cfg && y.st() == ine_then_in(fs, m, acc, rest)
                    &&& call_ensures(if_gt_zero, (y, rest), ())
                    &&& z.cfg == old(self).cfg && z.st() == ine_else_in(fs, m, acc, rest, final(y).st())
                    &&& call_ensures(if_zero, (z, rest), ())
                    &&& final(self).st() == ine_result(fs, old(self).st(), r0, scratch_track, final(x).st(),
                        g_clr_at(fs, ine_result(fs, m, acc, rest, final(y).st(), final(z).st()), acc))
                }),
            final(self).cfg == old(self).cfg,
            final(self).wf(),
            final(self).cur_frame is Some,
    {
        let r0 = register.at(0);
        let mut c = self.ine_open(r0, scratch_track);
        if_lt_zero(&mut c, scratch_track);
        let mut c2 = self.ine_middle(c, scratch_track);
        c2.if_binregister_nonzero_else(register, scratch_track, if_gt_zero, if_zero);
        self.ine_close(c2, scratch_track);
    }
}

}
verus! {

/// `foreach_pos_of_register` without `init`, with the body `body` and `fin`.
pub open spec fn g_foreach_pos_fin(fs: int, s: CpuState, r: Register, st: ScratchTrack,
    body: spec_fn(CpuState) -> CpuState, fin: spec_fn(CpuState) -> CpuState) -> CpuState {
    let size = r.size as int;
    let p = fp_start(fs, s, st);
    fp_end(fs, fin(fp_after(fs, p, st, size, body(fp_body_in(fs, p, st, size)))), st, size)
}

/// One visit of `cmp_2_uint_binregisters`: while the sliding result (first
/// scratch cell) is zero, compare the bit at `pos` with the one at `b0` and set
/// it to 1 or -1 when they differ; then slide it one frame on.
pub open spec fn g_cmp_bit(fs: int, s: CpuState, pos: Pos, b0: Pos, t: ScratchTrack) -> CpuState {
    let sr = t.first();
    let t2 = t.spec_split(1);
    let th0 = ine_then_in(fs, s, sr, t2);
    let e0 = ine_else_in(fs, s, sr, t2, th0);
    let dth = ine_then_in(fs, e0, pos, t2);
    let a_th = ine_then_in(fs, dth, b0, t2);
    let a_out = ine_result(fs, dth, b0, t2, a_th, g_op_at(fs, ine_else_in(fs, dth, b0, t2, a_th), sr, Op::Inc));
    let b_out = g_if_nonzero(fs, ine_else_in(fs, e0, pos, t2, a_out), b0, t2, |c3: CpuState| g_op_at(fs, c3, sr, Op::Dec));
    let r = ine_result(fs, s, sr, t2, th0, ine_result(fs, e0, pos, t2, a_out, b_out));
    g_moveadd(fs, r, sr, sr.shifted(1))
}

/// `cmp_2_uint_binregisters` on one-cell registers.
pub open spec fn g_cmp_bits1(fs: int, s: CpuState, a0: Pos, b0: Pos, cmp: Pos, st: ScratchTrack) -> CpuState {
    let a_cpy = st.first();
    let b_cpy = st.spec_split(1).first();
    let rest = st.spec_split(1).spec_split(1);
    let s1 = g_copy_auto(fs, g_copy_auto(fs, s, a0, a_cpy, st.spec_split(1)), b0, b_cpy, rest);
    let s2 = g_loop_while(fs, s1, b_cpy, |c: CpuState| g_op_at(fs, g_op(c, Op::Dec), a_cpy, Op::Dec));
    g_moveadd(fs, s2, a_cpy, cmp)
}

/// The number of cells of a register.
pub open spec fn reg_size(r: Register) -> int {
    r.size as int
}

/// `cmp_2_uint_binregisters` on registers `ra` and `rb`.
pub open spec fn g_compare_uint_bins(fs: int, s: CpuState, ra: Register, rb: Register, cmp: Pos, st: ScratchTrack) -> CpuState {
    if ra.size == 1 {
        g_cmp_bits1(fs, s, reg_at(ra, 0), reg_at(rb, 0), cmp, st)
    } else {
        let rest = st.spec_split(3);
        g_foreach_pos_fin(fs, s, ra, st,
            |c: CpuState| g_cmp_bit(fs, c, reg_at(ra, 0), reg_at(rb, 0), rest),
            |c: CpuState| g_moveadd(fs, c, rest.spec_split(reg_size(ra)).first(), cmp))
    }
}

impl<'c> Cpu<'c> {
    #[verifier::spinoff_prover]
    fn cmp_bit(&mut self, pos: Pos, b0: Pos, t: ScratchTrack)
        requires
            old(self).wf(),
            old(self).cur_frame is Some,
            pos_ok(pos),
            pos_ok(b0),
            scratch_ok(t),
            scratch_ok(t.spec_split(1)),
        ensures
            final(self).st() == g_cmp_bit(old(self).fs(), old(self).st(), pos, b0, t),
            final(self).cfg == old(self).cfg,
            final(self).wf(),
            final(self).cur_frame is Some,
    {
        let (sr, t2) = t.split_1();
        let c = self.ine_open(sr, t2);
        let mut c2 = self.ine_middle(c, t2);
        let mut d = c2.ine_open(pos, t2);
        let dd = d.ine_open(b0, t2);
        let mut dd2 = d.ine_middle(dd, t2);
        dd2.inc_at(sr);
        d.ine_close(dd2, t2);
        let mut d2 = c2.ine_middle(d, t2);
        d2.count_if_nonzero_dec(b0, sr, t2);
        c2.ine_close(d2, t2);
        self.ine_close(c2, t2);
        self.moveadd_byte(sr, sr.get_shifted(1));
    }

    /// Compares two binary registers of the same size as unsigned numbers, first
    /// cell most significant: `cmp_result` (which should be zero) gets 1, 0 or -1.
    /// A result slides along the bits and is fixed at the first difference.
    #[verifier::spinoff_prover]
    pub fn cmp_2_uint_binregisters(&mut self, a: BinRegister, b: BinRegister, cmp_result: Pos, scratch_track: ScratchTrack)
        requires
            old(self).wf(),
            old(self).cur_frame is Some,
            reg_ok(a.as_register_spec()),
            reg_ok(b.as_register_spec()),
            a.size == b.size,
            pos_ok(cmp_result),
            near(cmp_result),
            scratch_room(scratch_track),
        ensures
            final(self).st() == g_compare_uint_bins(old(self).fs(), old(self).st(), a.as_register_spec(), b.as_register_spec(),
                cmp_result, scratch_track),
            final(self).cfg == old(self).cfg,
            final(self).cur_frame is Some,
    {
        let ghost fs = self.fs();
        if a.size == 1 {
            let (a_cpy, st1) = scratch_track.split_1();
            self.copy_byte_autoscratch(a.at(0), a_cpy, st1);
            let (b_cpy, st2) = st1.split_1();
            self.copy_byte_autoscratch(b.at(0), b_cpy, st2);
            self.goto(b_cpy);
            let mut c = self.child();
            c.dec();
            c.dec_at(a_cpy);
            self.close_loop_at(b_cpy, c);
            self.moveadd_byte(a_cpy, cmp_result);
        } else {
            let b0 = b.at(0);
            self.foreach_pos_of_binregister(a, scratch_track,
                Some(|c: &mut Cpu<'c>, t: ScratchTrack| ensures *final(c) == *old(c) {}),
                |cpu: &mut Cpu<'c>, pos: Pos, t: ScratchTrack|
                    requires pos_ok(pos), pos_ok(b0), scratch_ok(t), scratch_ok(t.spec_split(1)), old(cpu).wf(), old(cpu).cur_frame is Some,
                    ensures
                        final(cpu).cur_frame is Some,
                        final(cpu).st() == g_cmp_bit(old(cpu).fs(), old(cpu).st(), pos, b0, t),
                        final(cpu).cfg == old(cpu).cfg,
                        final(cpu).wf()
                    { cpu.cmp_bit(pos, b0, t); },
                Some(|cpu: &mut Cpu<'c>, t: ScratchTrack|
                    requires pos_ok(cmp_result), scratch_ok(t), old(cpu).wf(), old(cpu).cur_frame is Some,
                    ensures
                        final(cpu).cur_frame is Some,
                        final(cpu).st() == g_moveadd(old(cpu).fs(), old(cpu).st(), t.first(), cmp_result),
                        final(cpu).cfg == old(cpu).cfg,
                        final(cpu).wf()
                    {
                        let (sr, _) = t.split_1();
                        cpu.moveadd_byte(sr, cmp_result);
                    }));
        }
    }
}

}

verus! {

/// The result of `match_cmp_result` on `cmp` that turns 1 into -1 and -1 into 1.
pub open spec fn g_negate_cmp(fs: int, s: CpuState, cmp: Pos, st: ScratchTrack) -> CpuState {
    let s1 = g_copy_auto(fs, s, cmp, st.first(), st.spec_split(1));
    let cpy = st.first();
    let rest = st.spec_split(1);
    let x = g_sub_const(fs, mm_gt_in(fs, s1, cpy, rest), cmp, 2);
    let y = g_add_const(fs, mm_lt_in(fs, s1, cpy, rest, x), cmp, 2);
    let z = mm_eq_in(fs, s1, cpy, rest, x, y);
    mm_result(fs, s1, cpy, rest, x, y, z)
}

/// `cmp_2_int_binregisters`: the sign cells decide, and where they agree the
/// other cells are compared as unsigned numbers (the result negated for two
/// negative numbers).
pub open spec fn g_compare_int_bins(fs: int, s: CpuState, ra: Register, rb: Register, cmp: Pos, st: ScratchTrack) -> CpuState {
    let a0 = reg_at(ra, 0);
    let b0 = reg_at(rb, 0);
    let sa = reg_tail(ra);
    let sb = reg_tail(rb);
    // a negative
    let ta = ine_then_in(fs, s, a0, st);
    let tb = ine_then_in(fs, ta, b0, st);
    let both_neg = g_negate_cmp(fs, g_compare_uint_bins(fs, tb, sa, sb, cmp, st), cmp, st);
    let a_out = ine_result(fs, ta, b0, st, both_neg, g_op_at(fs, ine_else_in(fs, ta, b0, st, both_neg), cmp, Op::Dec));
    // a not negative
    let ea = ine_else_in(fs, s, a0, st, a_out);
    let eb = g_op_at(fs, ine_then_in(fs, ea, b0, st), cmp, Op::Inc);
    let b_out = ine_result(fs, ea, b0, st, eb, g_compare_uint_bins(fs, ine_else_in(fs, ea, b0, st, eb), sa, sb, cmp, st));
    ine_result(fs, s, a0, st, a_out, b_out)
}

impl<'c> Cpu<'c> {
    /// Turns the comparison result in `cmp` around (1 and -1 swap).
    #[verifier::spinoff_prover]
    fn negate_cmp(&mut self, cmp: Pos, st: ScratchTrack)
        requires
            old(self).wf(),
            old(self).cur_frame is Some,
            near(cmp),
            scratch_room(st),
        ensures
            final(self).st() == g_negate_cmp(old(self).fs(), old(self).st(), cmp, st),
            final(self).cfg == old(self).cfg,
            final(self).wf(),
            final(self).cur_frame is Some,
    {
        self.match_cmp_result(cmp, st,
            |cpu: &mut Cpu<'c>, t: ScratchTrack|
                requires pos_ok(cmp), old(cpu).wf(), old(cpu).cur_frame is Some,
                ensures
                    final(cpu).cur_frame is Some,
                    final(cpu).st() == g_add_const(old(cpu).fs(), old(cpu).st(), cmp, 2),
                    final(cpu).cfg == old(cpu).cfg,
                    final(cpu).wf()
                { cpu.add_const_to_byte(cmp, 2); },
            |cpu: &mut Cpu<'c>, t: ScratchTrack| ensures *final(cpu) == *old(cpu) {},
            |cpu: &mut Cpu<'c>, t: ScratchTrack|
                requires pos_ok(cmp), old(cpu).wf(), old(cpu).cur_frame is Some,
                ensures
                    final(cpu).cur_frame is Some,
                    final(cpu).st() == g_sub_const(old(cpu).fs(), old(cpu).st(), cmp, 2),
                    final(cpu).cfg == old(cpu).cfg,
                    final(cpu).wf()
                { cpu.sub_const_from_byte(cmp, 2); });
    }

    /// Compares two binary registers of the same size as signed numbers (first
    /// cell the sign): `cmp_result` (which should be zero) gets 1, 0 or -1.
    #[verifier::spinoff_prover]
    pub fn cmp_2_int_binregisters(&mut self, a: BinRegister, b: BinRegister, cmp_result: Pos, scratch_track: ScratchTrack)
        requires
            old(self).wf(),
            old(self).cur_frame is Some,
            reg_ok(a.as_register_spec()),
            reg_ok(b.as_register_spec()),
            a.size == b.size,
            a.size >= 2,
            pos_ok(cmp_result),
            near(cmp_result),
            scratch_room(scratch_track),
        ensures
            final(self).st() == g_compare_int_bins(old(self).fs(), old(self).st(), a.as_register_spec(), b.as_register_spec(),
                cmp_result, scratch_track),
            final(self).cfg == old(self).cfg,
            final(self).wf(),
            final(self).cur_frame is Some,
    {
        let a0 = a.at(0);
        let b0 = b.at(0);
        let sa = a.subview(1, a.size - 1);
        let sb = b.subview(1, b.size - 1);
        let mut c = self.ine_open(a0, scratch_track);
        let mut d = c.ine_open(b0, scratch_track);
        d.cmp_2_uint_binregisters(sa, sb, cmp_result, scratch_track);
        d.negate_cmp(cmp_result, scratch_track);
        let mut d2 = c.ine_middle(d, scratch_track);
        d2.dec_at(cmp_result);
        c.ine_close(d2, scratch_track);
        let mut c2 = self.ine_middle(c, scratch_track);
        let mut e = c2.ine_open(b0, scratch_track);
        e.inc_at(cmp_result);
        let mut e2 = c2.ine_middle(e, scratch_track);
        e2.cmp_2_uint_binregisters(sa, sb, cmp_result, scratch_track);
        c2.ine_close(e2, scratch_track);
        self.ine_close(c2, scratch_track);
    }
}

}
verus! {

/// `foreach_pos_of_register_rev` without `init`, with the body `body` and `fin`.
pub open spec fn g_foreach_pos_rev_fin(fs: int, s: CpuState, r: Register, st: ScratchTrack,
    body: spec_fn(CpuState) -> CpuState, fin: spec_fn(CpuState) -> CpuState) -> CpuState {
    let size = r.size as int;
    let p = g_op_at(fs, s, st.first(), Op::Dec);
    fpr_end(fin(fpr_after(fs, p, st, size, body(g_op(child(fpr_loop(fs, p, st, size)), Op::Dec)))), st, size)
}

/// One bit of adding binary registers: the bit at `pos` and the bit at `r2`
/// are added onto the carry (first scratch cell); the sum decides the bit at
/// `r2` and the carry into the cell before the carry.
#[verifier::opaque]
pub open spec fn g_add_bit(fs: int, s: CpuState, pos: Pos, r2: Pos, t: ScratchTrack) -> CpuState {
    let carry = t.first();
    let t2 = t.spec_split(1);
    let nc = carry.shifted(-1);
    let s1 = g_copy_auto(fs, g_copy_auto(fs, s, pos, carry, t2), r2, carry, t2);
    let a1 = g_op_at(fs, ine_then_in(fs, s1, carry, t2), carry, Op::Dec);
    let a2 = g_set_byte(fs, g_op_at(fs, ine_then_in(fs, a1, carry, t2), carry, Op::Dec), nc, 1);
    let a3_out = g_set_byte(fs, g_op_at(fs, ine_then_in(fs, a2, carry, t2), carry, Op::Dec), r2, 1);
    let b3_out = g_set_byte(fs, ine_else_in(fs, a2, carry, t2, a3_out), r2, 0);
    let a2_out = ine_result(fs, a2, carry, t2, a3_out, b3_out);
    let b2_out = g_set_byte(fs, ine_else_in(fs, a1, carry, t2, a2_out), r2, 1);
    let a_out = ine_result(fs, a1, carry, t2, a2_out, b2_out);
    let b_out = g_set_byte(fs, ine_else_in(fs, s1, carry, t2, a_out), r2, 0);
    ine_result(fs, s1, carry, t2, a_out, b_out)
}

/// One bit of subtracting binary registers: `acc` (second scratch cell) gets
/// `2 + r2 - pos - carry`, which decides the bit at `r2` and the borrow into
/// the cell before the carry.
#[verifier::opaque]
pub open spec fn g_sub_bit(fs: int, s: CpuState, pos: Pos, r2: Pos, t: ScratchTrack) -> CpuState {
    let carry = t.first();
    let acc = t.first().shifted(1);
    let t2 = t.spec_split(2);
    let nc = carry.shifted(-1);
    let s1 = g_movesub(fs, g_sub_auto(fs, g_add_const(fs, g_copy_auto(fs, s, r2, acc, t2), acc, 2), pos, acc, t2), carry, acc);
    let a1 = g_op_at(fs, ine_then_in(fs, s1, acc, t2), acc, Op::Dec);
    let a2 = g_op_at(fs, ine_then_in(fs, a1, acc, t2), acc, Op::Dec);
    let a3_out = g_set_byte(fs, g_op_at(fs, ine_then_in(fs, a2, acc, t2), acc, Op::Dec), r2, 1);
    let b3_out = g_set_byte(fs, ine_else_in(fs, a2, acc, t2, a3_out), r2, 0);
    let a2_out = ine_result(fs, a2, acc, t2, a3_out, b3_out);
    let b2_out = g_set_byte(fs, g_set_byte(fs, ine_else_in(fs, a1, acc, t2, a2_out), nc, 1), r2, 1);
    let a_out = ine_result(fs, a1, acc, t2, a2_out, b2_out);
    let b_out = g_set_byte(fs, g_set_byte(fs, ine_else_in(fs, s1, acc, t2, a_out), nc, 1), r2, 0);
    ine_result(fs, s1, acc, t2, a_out, b_out)
}

/// `add_binregister_to_binregister` on registers `r1` and `r2`.
pub open spec fn g_add_bins(fs: int, s: CpuState, r1: Register, r2: Register, st: ScratchTrack) -> CpuState {
    let rest = fpr_track(st, r1.size as int).spec_split(1);
    g_foreach_pos_rev_fin(fs, s, r1, st,
        |c: CpuState| g_add_bit(fs, c, reg_at(r1, r1.size - 1), reg_at(r2, r2.size - 1), rest),
        |c: CpuState| g_clr_at(fs, c, rest.first()))
}

/// `sub_binregister_from_binregister` on registers `r1` and `r2`.
pub open spec fn g_sub_bins(fs: int, s: CpuState, r1: Register, r2: Register, st: ScratchTrack) -> CpuState {
    let rest = fpr_track(st, r1.size as int).spec_split(1);
    g_foreach_pos_rev_fin(fs, s, r1, st,
        |c: CpuState| g_sub_bit(fs, c, reg_at(r1, r1.size - 1), reg_at(r2, r2.size - 1), rest),
        |c: CpuState| g_clr_at(fs, c, rest.first()))
}

impl<'c> Cpu<'c> {
    #[verifier::spinoff_prover]
    fn add_bit(&mut self, pos: Pos, r2: Pos, t: ScratchTrack)
        requires
            old(self).wf(),
            old(self).cur_frame is Some,
            near(pos),
            near(r2),
            scratch_ok(t),
            scratch_ok(t.spec_split(1)),
            near(t.first()),
            pos_ok(t.first().shifted(-1)),
        ensures
            final(self).st() == g_add_bit(old(self).fs(), old(self).st(), pos, r2, t),
            final(self).cfg == old(self).cfg,
            final(self).wf(),
            final(self).cur_frame == Some(t.spec_split(1).first().shifted(1).frame),
    {
        let (carry, t2) = t.split_1();
        let nc = carry.get_shifted(-1);
        self.copy_byte_autoscratch(pos, carry, t2);
        self.copy_byte_autoscratch(r2, carry, t2);
        let mut a = self.ine_open(carry, t2);
        a.dec_at(carry);
        let mut a2 = a.ine_open(carry, t2);
        a2.dec_at(carry);
        a2.set_byte(nc, 1);
        let mut a3 = a2.ine_open(carry, t2);
        a3.dec_at(carry);
        a3.set_byte(r2, 1);
        let mut b3 = a2.ine_middle(a3, t2);
        b3.set_byte(r2, 0);
        a2.ine_close(b3, t2);
        let mut b2 = a.ine_middle(a2, t2);
        b2.set_byte(r2, 1);
        a.ine_close(b2, t2);
        let mut b = self.ine_middle(a, t2);
        b.set_byte(r2, 0);
        self.ine_close(b, t2);
        proof { reveal(g_add_bit); }
    }

    #[verifier::spinoff_prover]
    fn sub_bit(&mut self, pos: Pos, r2: Pos, t: ScratchTrack)
        requires
            old(self).wf(),
            old(self).cur_frame is Some,
            near(pos),
            near(r2),
            scratch_ok(t),
            scratch_ok(t.spec_split(2)),
            near(t.first().shifted(1)),
            near(t.first()),
            pos_ok(t.first().shifted(-1)),
        ensures
            final(self).st() == g_sub_bit(old(self).fs(), old(self).st(), pos, r2, t),
            final(self).cfg == old(self).cfg,
            final(self).wf(),
            final(self).cur_frame == Some(t.spec_split(2).first().shifted(1).frame),
    {
        let (two, t2) = t.split_2();
        let carry = two[0];
        let acc = two[1];
        let nc = carry.get_shifted(-1);
        self.copy_byte_autoscratch(r2, acc, t2);
        self.add_const_to_byte(acc, 2);
        self.sub_byte_autoscratch(pos, acc, t2);
        self.movesub_byte(carry, acc);
        let mut a = self.ine_open(acc, t2);
        a.dec_at(acc);
        let mut a2 = a.ine_open(acc, t2);
        a2.dec_at(acc);
        let mut a3 = a2.ine_open(acc, t2);
        a3.dec_at(acc);
        a3.set_byte(r2, 1);
        let mut b3 = a2.ine_middle(a3, t2);
        b3.set_byte(r2, 0);
        a2.ine_close(b3, t2);
        let mut b2 = a.ine_middle(a2, t2);
        b2.set_byte(nc, 1);
        b2.set_byte(r2, 1);
        a.ine_close(b2, t2);
        let mut b = self.ine_middle(a, t2);
        b.set_byte(nc, 1);
        b.set_byte(r2, 0);
        self.ine_close(b, t2);
        proof { reveal(g_sub_bit); }
    }

    /// Adds the binary register `reg1` onto `reg2` (same size, last cell least
    /// significant), bit by bit from the last, with a carry.
    #[verifier::spinoff_prover]
    pub fn add_binregister_to_binregister(&mut self, reg1: BinRegister, reg2: BinRegister, scratch_track: ScratchTrack)
        requires
            old(self).wf(),
            old(self).cur_frame is Some,
            reg_ok(reg1.as_register_spec()),
            reg_ok(reg2.as_register_spec()),
            reg1.size == reg2.size,
            scratch_room(scratch_track),
        ensures
            final(self).st() == g_add_bins(old(self).fs(), old(self).st(), reg1.as_register_spec(), reg2.as_register_spec(), scratch_track),
            final(self).cfg == old(self).cfg,
            final(self).cur_frame is Some,
    {
        let r2 = reg2.last_pos();
        self.foreach_pos_of_binregister_rev(reg1, scratch_track,
            Some(|c: &mut Cpu<'c>, t: ScratchTrack| ensures *final(c) == *old(c) {}),
            |cpu: &mut Cpu<'c>, pos: Pos, t: ScratchTrack|
                requires
                    near(pos), near(r2), scratch_ok(t), scratch_ok(t.spec_split(1)), near(t.first()),
                    pos_ok(t.first().shifted(-1)), t.spec_split(1).first().frame < 0x3F_0000,
                    old(cpu).wf(), old(cpu).cur_frame is Some,
                ensures
                    final(cpu).cur_frame is Some,
                    -0x40_0000 <= final(cpu).cur_frame.unwrap() < 0x40_0000,
                    final(cpu).st() == g_add_bit(old(cpu).fs(), old(cpu).st(), pos, r2, t),
                    final(cpu).cfg == old(cpu).cfg,
                    final(cpu).wf()
                { cpu.add_bit(pos, r2, t); },
            Some(|cpu: &mut Cpu<'c>, t: ScratchTrack|
                requires scratch_ok(t), old(cpu).wf(), old(cpu).cur_frame is Some,
                ensures
                    final(cpu).cur_frame is Some,
                    final(cpu).st() == g_clr_at(old(cpu).fs(), old(cpu).st(), t.first()),
                    final(cpu).cfg == old(cpu).cfg,
                    final(cpu).wf()
                {
                    let (carry, _) = t.split_1();
                    cpu.clr_at(carry);
                }));
    }

    /// Subtracts the binary register `reg1` from `reg2` (same size, last cell
    /// least significant), bit by bit from the last, with a borrow.
    #[verifier::spinoff_prover]
    pub fn sub_binregister_from_binregister(&mut self, reg1: BinRegister, reg2: BinRegister, scratch_track: ScratchTrack)
        requires
            old(self).wf(),
            old(self).cur_frame is Some,
            reg_ok(reg1.as_register_spec()),
            reg_ok(reg2.as_register_spec()),
            reg1.size == reg2.size,
            scratch_room(scratch_track),
        ensures
            final(self).st() == g_sub_bins(old(self).fs(), old(self).st(), reg1.as_register_spec(), reg2.as_register_spec(), scratch_track),
            final(self).cfg == old(self).cfg,
            final(self).cur_frame is Some,
    {
        let r2 = reg2.last_pos();
        self.foreach_pos_of_binregister_rev(reg1, scratch_track,
            Some(|c: &mut Cpu<'c>, t: ScratchTrack| ensures *final(c) == *old(c) {}),
            |cpu: &mut Cpu<'c>, pos: Pos, t: ScratchTrack|
                requires
                    near(pos), near(r2), scratch_ok(t), scratch_ok(t.spec_split(2)), near(t.first()), near(t.first().shifted(1)),
                    pos_ok(t.first().shifted(-1)), t.spec_split(2).first().frame < 0x3F_0000,
                    old(cpu).wf(), old(cpu).cur_frame is Some,
                ensures
                    final(cpu).cur_frame is Some,
                    -0x40_0000 <= final(cpu).cur_frame.unwrap() < 0x40_0000,
                    final(cpu).st() == g_sub_bit(old(cpu).fs(), old(cpu).st(), pos, r2, t),
                    final(cpu).cfg == old(cpu).cfg,
                    final(cpu).wf()
                { cpu.sub_bit(pos, r2, t); },
            Some(|cpu: &mut Cpu<'c>, t: ScratchTrack|
                requires scratch_ok(t), old(cpu).wf(), old(cpu).cur_frame is Some,
                ensures
                    final(cpu).cur_frame is Some,
                    final(cpu).st() == g_clr_at(old(cpu).fs(), old(cpu).st(), t.first()),
                    final(cpu).cfg == old(cpu).cfg,
                    final(cpu).wf()
                {
                    let (carry, _) = t.split_1();
                    cpu.clr_at(carry);
                }));
    }
}

}
verus! {

/// `shift_binregister_left` on the register `r`.
pub open spec fn g_shift_left(fs: int, s: CpuState, r: Register, st: ScratchTrack) -> CpuState {
    let sub = reg_sub(r, 1, r.size - 1);
    g_foreach_pos(fs, g_clr_at(fs, s, reg_at(r, 0)), sub, st,
        |c: CpuState| g_moveadd(fs, c, reg_at(sub, 0), reg_at(sub, 0).shifted(-1)))
}

/// One round of `mul_binregisters`: if the bit of `b` in `val` is set, add the
/// shifted copy of `a` onto `out`; then shift the copy one bit left.
pub open spec fn g_mul_step(fs: int, c: CpuState, val: Pos, ash: Register, out: Register, t: ScratchTrack) -> CpuState {
    g_shift_left(fs, g_if_nonzero(fs, c, val, t, |c2: CpuState| g_add_bins(fs, c2, ash, out, t)), ash, t)
}

/// The first `size` cells of the scratch track, as a register.
pub open spec fn scratch_reg(st: ScratchTrack, size: int) -> Register {
    Register { track: st.track, size: size as isize, offset: (st.left_limit() - st.offset) as isize }
}

/// `mul_binregisters` on `a`, `b` and `out`.
pub open spec fn g_mul_bins(fs: int, s: CpuState, a: Register, b: Register, out: Register, st: ScratchTrack) -> CpuState {
    let ash = scratch_reg(st, a.size as int);
    let st1 = st.spec_split(a.size as int);
    let s1 = g_foreach_pos(fs, s, a, st1, |c: CpuState| g_copy_auto(fs, c, reg_at(a, 0), reg_at(ash, 0), st1.spec_split(3)));
    let v = fvr_s2(st1, b.size as int).shifted(2);
    let t = fvr_rest(st1, b.size as int);
    fvr_end(fs, s1, b, st1, g_mul_step(fs, fvr_f_in(fs, s1, b, st1), v, ash, out, t))
}

impl<'c> Cpu<'c> {
    #[verifier::spinoff_prover]
    fn mul_step(&mut self, val: Pos, ash: BinRegister, out: BinRegister, t: ScratchTrack)
        requires
            old(self).can_goto(val),
            reg_ok(ash.as_register_spec()),
            reg_ok(out.as_register_spec()),
            ash.size == out.size,
            ash.size >= 2,
            scratch_room(t),
        ensures
            final(self).st() == g_mul_step(old(self).fs(), old(self).st(), val, ash.as_register_spec(), out.as_register_spec(), t),
            final(self).cfg == old(self).cfg,
            final(self).wf(),
            final(self).cur_frame is Some,
    {
        self.if_nonzero(val, t,
            |cpu: &mut Cpu<'c>, u: ScratchTrack|
                requires
                    reg_ok(ash.as_register_spec()), reg_ok(out.as_register_spec()), ash.size == out.size, scratch_room(u),
                    old(cpu).wf(), old(cpu).cur_frame is Some,
                ensures
                    final(cpu).cur_frame is Some,
                    final(cpu).st() == g_add_bins(old(cpu).fs(), old(cpu).st(), ash.as_register_spec(), out.as_register_spec(), u),
                    final(cpu).cfg == old(cpu).cfg,
                    final(cpu).wf()
                { cpu.add_binregister_to_binregister(ash, out, u); });
        self.shift_binregister_left(ash, t);
    }

    /// Adds `a * b` onto `out` (binary registers, last cell least significant):
    /// a copy of `a` is shifted left once per bit of `b`, from the last bit, and
    /// added onto `out` where the bit is set.
    #[verifier::spinoff_prover]
    pub fn mul_binregisters(&mut self, a: BinRegister, b: BinRegister, out: BinRegister, scratch_track: ScratchTrack)
        requires
            old(self).wf(),
            old(self).cur_frame is Some,
            reg_ok(a.as_register_spec()),
            reg_ok(b.as_register_spec()),
            reg_ok(out.as_register_spec()),
            a.size == out.size,
            a.size >= 2,
            b.offset != out.offset || b.track != out.track,
            scratch_room(scratch_track),
            scratch_track.left_limit() + a.size + b.size + 3 <= 0xF_0000,
            reg_at(b.as_register_spec(), b.size - 1) != fvr_s2(scratch_track.spec_split(a.size as int), b.size as int),
        ensures
            final(self).st() == g_mul_bins(old(self).fs(), old(self).st(), a.as_register_spec(), b.as_register_spec(),
                out.as_register_spec(), scratch_track),
            final(self).cfg == old(self).cfg,
            final(self).cur_frame is Some,
    {
        let (a_shifted, st1) = scratch_track.split_binregister(a.size);
        self.copy_binregister(a, a_shifted, st1, false);
        assert(a_shifted.as_register_spec() == scratch_reg(scratch_track, a.size as int));
        self.foreach_val_of_binregister_rev(b, st1,
            |cpu: &mut Cpu<'c>, val: Pos, t: ScratchTrack|
                requires
                    pos_ok(val), reg_ok(a_shifted.as_register_spec()), reg_ok(out.as_register_spec()),
                    a_shifted.size == out.size, a_shifted.size >= 2, scratch_room(t),
                    old(cpu).wf(), old(cpu).cur_frame is Some,
                ensures
                    final(cpu).cur_frame is Some,
                    final(cpu).st() == g_mul_step(old(cpu).fs(), old(cpu).st(), val, a_shifted.as_register_spec(), out.as_register_spec(), t),
                    final(cpu).cfg == old(cpu).cfg,
                    final(cpu).wf()
                { cpu.mul_step(val, a_shifted, out, t); });
    }
}

}
verus! {

/// `shift_binregister_right` on the register `r`.
pub open spec fn g_shift_right(fs: int, s: CpuState, r: Register, st: ScratchTrack) -> CpuState {
    let sub = reg_sub(r, 0, r.size - 1);
    g_foreach_pos_rev(fs, g_clr_at(fs, s, reg_at(r, r.size - 1)), sub, st,
        |c: CpuState| g_moveadd(fs, c, reg_at(sub, sub.size - 1), reg_at(sub, sub.size - 1).shifted(1)))
}

/// One round of the loop that moves the value of `cdl` one frame left per
/// unit (so that a 1 lands `value` frames left of it).
pub open spec fn g_walk_round(fs: int, x: CpuState, cdl: Pos) -> CpuState {
    CpuState { frame: Some(cdl.frame as int), ..g_goto(fs, g_moveadd(fs, g_op(x, Op::Dec), cdl, cdl.shifted(-1)), cdl.shifted(-1)) }
}

/// Adding a one bit of the quotient: a 1 is placed `counter` cells from the
/// end of a scratch register `cd` (walking there with markers), `cd` is added
/// onto `div`, and the markers are walked back and cleared.
pub open spec fn g_div_digit(fs: int, c: CpuState, counter: Pos, div: Register, st: ScratchTrack, size: int) -> CpuState {
    let sentinel = st.first();
    let st5 = st.spec_split(1);
    let cd = scratch_reg(st5, size);
    let st6 = st5.spec_split(size);
    let cdl = reg_at(cd, size - 1);
    let d2 = g_copy_auto(fs, g_op_at(fs, c, sentinel, Op::Inc), counter, cdl, st6);
    let d3 = g_loop_while(fs, d2, cdl, |x: CpuState| g_walk_round(fs, x, cdl));
    let d5 = g_sentinel(fs, g_goto(fs, g_op(d3, Op::Inc), cdl.shifted(-1)), sentinel, Op::Dec, Op::Inc, -1);
    let d7 = g_op_at(fs, g_add_bins(fs, d5, cd, div, st6), sentinel, Op::Inc);
    let d8 = g_sentinel(fs, g_goto(fs, d7, sentinel.shifted(1)), cdl, Op::Dec, Op::Inc, 1);
    g_sentinel(fs, d8, sentinel, Op::Dec, Op::Inc, -1)
}

/// The test of `div_binregisters` on the remainder after subtracting: where it
/// went below zero the divisor is added back, and otherwise `sad` is set.
pub open spec fn g_div_test(fs: int, c: CpuState, rem2: Register, bsh: Register, sad: Pos, st4: ScratchTrack) -> CpuState {
    let r0 = reg_at(rem2, 0);
    let x = g_add_bins(fs, ine_then_in(fs, c, r0, st4), bsh, rem2, st4);
    let e = ine_else_in(fs, c, r0, st4, x);
    let m = bne_count(fs, e, rem2, st4);
    let acc = st4.first();
    let rest = bne_rest(st4, rem2.size as int);
    let y = g_op_at(fs, ine_then_in(fs, m, acc, rest), sad, Op::Inc);
    let z = g_op_at(fs, ine_else_in(fs, m, acc, rest, y), sad, Op::Inc);
    ine_result(fs, c, r0, st4, x, g_clr_at(fs, ine_result(fs, m, acc, rest, y, z), acc))
}

/// One round of `div_binregisters` (counter at `counter`, scratch `st3` after it).
#[verifier::opaque]
pub open spec fn g_div_bins_round(fs: int, c: CpuState, rem2: Register, bsh: Register, div: Register, counter: Pos,
    st3: ScratchTrack, size: int) -> CpuState {
    let sad = st3.first();
    let st4 = st3.spec_split(1);
    let c2 = g_sub_bins(fs, g_op(c, Op::Dec), bsh, rem2, st3);
    let c3 = g_div_test(fs, c2, rem2, bsh, sad, st4);
    let c4 = g_if_nonzero(fs, c3, sad, st4, |x: CpuState| g_div_digit(fs, x, counter, div, st4, size));
    g_shift_right(fs, g_clr_at(fs, c4, sad), bsh, st4)
}

/// The set-up of `div_binregisters`: `a` copied into the tail of `rem2`, `b`
/// into `bsh` after its first cell, and the counter set to the size of `a`.
#[verifier::opaque]
pub open spec fn g_div_setup(fs: int, s: CpuState, a: Register, b: Register, st: ScratchTrack) -> CpuState {
    let n = a.size + b.size;
    let rem2 = scratch_reg(st, n);
    let st1 = st.spec_split(n);
    let bsh = scratch_reg(st1, n);
    let st2 = st1.spec_split(n);
    let rem2_tail = reg_sub(rem2, b.size as int, a.size as int);
    let bsh_sub = reg_sub(bsh, 1, b.size as int);
    let s1 = g_foreach_pos(fs, s, a, st1, |c: CpuState| g_copy_auto(fs, c, reg_at(a, 0), reg_at(rem2_tail, 0), st1.spec_split(3)));
    let s2 = g_foreach_pos(fs, s1, b, st2, |c: CpuState| g_copy_auto(fs, c, reg_at(b, 0), reg_at(bsh_sub, 0), st2.spec_split(3)));
    g_set_byte(fs, s2, st2.first(), a.size as u8)
}

/// The end of `div_binregisters`: the remainder is added onto `rem` and the
/// scratch registers are cleared.
#[verifier::opaque]
pub open spec fn g_div_finish(fs: int, l: CpuState, a: Register, b: Register, rem: Register, st: ScratchTrack) -> CpuState {
    let n = a.size + b.size;
    let rem2 = scratch_reg(st, n);
    let bsh = scratch_reg(st.spec_split(n), n);
    let st3 = st.spec_split(2 * n + 1);
    let e1 = g_add_bins(fs, l, reg_sub(rem2, b.size as int, a.size as int), rem, st3);
    g_clr_register(fs, g_clr_register(fs, e1, rem2, st3), bsh, st3)
}

/// `div_binregisters` on `a`, `b`, `div` and `rem`.
pub open spec fn g_div_bins(fs: int, s: CpuState, a: Register, b: Register, div: Register, rem: Register, st: ScratchTrack) -> CpuState {
    let n = a.size + b.size;
    let rem2 = scratch_reg(st, n);
    let bsh = scratch_reg(st.spec_split(n), n);
    let counter = st.spec_split(2 * n).first();
    let st3 = st.spec_split(2 * n + 1);
    let l = g_loop_while(fs, g_div_setup(fs, s, a, b, st), counter,
        |c: CpuState| g_div_bins_round(fs, c, rem2, bsh, div, counter, st3, a.size as int));
    g_div_finish(fs, l, a, b, rem, st)
}

impl<'c> Cpu<'c> {
    #[verifier::spinoff_prover]
    fn div_digit(&mut self, counter: Pos, div: BinRegister, st: ScratchTrack, size: isize)
        requires
            old(self).wf(),
            old(self).cur_frame is Some,
            near(counter),
            reg_ok(div.as_register_spec()),
            div.size == size,
            scratch_room(st),
            st.left_limit() + size + 1 <= 0xF_0000,
        ensures
            final(self).st() == g_div_digit(old(self).fs(), old(self).st(), counter, div.as_register_spec(), st, size as int),
            final(self).cfg == old(self).cfg,
            final(self).wf(),
            final(self).cur_frame is Some,
    {
        let ghost fs = self.fs();
        let (sentinel, st5) = st.split_1();
        self.inc_at(sentinel);
        let (cur_digit, st6) = st5.split_binregister(size);
        assert(cur_digit.as_register_spec() == scratch_reg(st5, size as int));
        let cdl = cur_digit.last_pos();
        let cdl1 = cdl.get_shifted(-1);
        self.copy_byte_autoscratch(counter, cdl, st6);
        self.goto(cdl);
        let mut c = self.child();
        c.dec();
        c.moveadd_byte(cdl, cdl1);
        c.goto(cdl1);
        c.now_were_actually_at(cdl);
        self.close_loop_at(cdl, c);
        self.inc();
        self.goto(cdl1);
        self.go_clear_sentinel_left(sentinel);
        self.add_binregister_to_binregister(cur_digit, div, st6);
        self.inc_at(sentinel);
        self.goto(sentinel.get_shifted(1));
        self.go_clear_sentinel_right(cdl);
        self.go_clear_sentinel_left(sentinel);
    }

    #[verifier::spinoff_prover]
    fn div_test(&mut self, rem2: BinRegister, bsh: BinRegister, sad: Pos, st4: ScratchTrack)
        requires
            old(self).wf(),
            old(self).cur_frame is Some,
            reg_ok(rem2.as_register_spec()),
            reg_ok(bsh.as_register_spec()),
            rem2.size == bsh.size,
            pos_ok(sad),
            scratch_room(st4),
        ensures
            final(self).st() == g_div_test(old(self).fs(), old(self).st(), rem2.as_register_spec(), bsh.as_register_spec(), sad, st4),
            final(self).cfg == old(self).cfg,
            final(self).wf(),
            final(self).cur_frame is Some,
    {
        self.cmp_binregister(rem2, st4,
            |cpu: &mut Cpu<'c>, t: ScratchTrack|
                requires
                    reg_ok(rem2.as_register_spec()), reg_ok(bsh.as_register_spec()), rem2.size == bsh.size, scratch_room(t),
                    old(cpu).wf(), old(cpu).cur_frame is Some,
                ensures
                    final(cpu).cur_frame is Some,
                    final(cpu).st() == g_add_bins(old(cpu).fs(), old(cpu).st(), bsh.as_register_spec(), rem2.as_register_spec(), t),
                    final(cpu).cfg == old(cpu).cfg,
                    final(cpu).wf()
                { cpu.add_binregister_to_binregister(bsh, rem2, t); },
            |cpu: &mut Cpu<'c>, t: ScratchTrack|
                requires pos_ok(sad), old(cpu).wf(), old(cpu).cur_frame is Some,
                ensures
                    final(cpu).cur_frame is Some,
                    final(cpu).st() == g_op_at(old(cpu).fs(), old(cpu).st(), sad, Op::Inc),
                    final(cpu).cfg == old(cpu).cfg,
                    final(cpu).wf()
                { cpu.inc_at(sad); },
            |cpu: &mut Cpu<'c>, t: ScratchTrack|
                requires pos_ok(sad), old(cpu).wf(), old(cpu).cur_frame is Some,
                ensures
                    final(cpu).cur_frame is Some,
                    final(cpu).st() == g_op_at(old(cpu).fs(), old(cpu).st(), sad, Op::Inc),
                    final(cpu).cfg == old(cpu).cfg,
                    final(cpu).wf()
                { cpu.inc_at(sad); });
    }
}


impl<'c> Cpu<'c> {
    #[verifier::spinoff_prover]
    fn div_round(&mut self, rem2: BinRegister, bsh: BinRegister, div: BinRegister, counter: Pos, st3: ScratchTrack, size: isize)
        requires
            old(self).wf(),
            old(self).cur_frame is Some,
            reg_ok(rem2.as_register_spec()),
            reg_ok(bsh.as_register_spec()),
            reg_ok(div.as_register_spec()),
            rem2.size == bsh.size,
            bsh.size >= 2,
            div.size == size,
            near(counter),
            scratch_room(st3),
            st3.left_limit() + size + 2 <= 0xF_0000,
        ensures
            final(self).st() == g_div_bins_round(old(self).fs(), old(self).st(), rem2.as_register_spec(),
                bsh.as_register_spec(), div.as_register_spec(), counter, st3, size as int),
            final(self).cfg == old(self).cfg,
            final(self).wf(),
            final(self).cur_frame is Some,
    {
        reveal(g_div_bins_round);
        self.dec();
        self.sub_binregister_from_binregister(bsh, rem2, st3);
        let (sad, st4) = st3.split_1();
        self.div_test(rem2, bsh, sad, st4);
        self.if_nonzero(sad, st4,
            |cpu: &mut Cpu<'c>, u: ScratchTrack|
                requires
                    near(counter), reg_ok(div.as_register_spec()), div.size == size, scratch_room(u),
                    u.left_limit() + size + 1 <= 0xF_0000,
                    old(cpu).wf(), old(cpu).cur_frame is Some,
                ensures
                    final(cpu).cur_frame is Some,
                    final(cpu).st() == g_div_digit(old(cpu).fs(), old(cpu).st(), counter, div.as_register_spec(), u, size as int),
                    final(cpu).cfg == old(cpu).cfg,
                    final(cpu).wf()
                { cpu.div_digit(counter, div, u, size); });
        self.clr_at(sad);
        self.shift_binregister_right(bsh, st4);
    }

    #[verifier::spinoff_prover]
    #[verifier::rlimit(100)]
    fn div_setup(&mut self, a: BinRegister, b: BinRegister, scratch_track: ScratchTrack)
        requires
            old(self).wf(),
            old(self).cur_frame is Some,
            reg_ok(a.as_register_spec()),
            reg_ok(b.as_register_spec()),
            a.size <= 255,
            scratch_room(scratch_track),
            a.size + b.size <= 0x1000,
            scratch_track.left_limit() + 2 * (a.size + b.size) + 4 <= 0xF_0000,
        ensures
            final(self).st() == g_div_setup(old(self).fs(), old(self).st(), a.as_register_spec(), b.as_register_spec(), scratch_track),
            final(self).cfg == old(self).cfg,
            final(self).wf(),
            final(self).cur_frame is Some,
    {
        reveal(g_div_setup);
        let ghost fs = self.fs();
        let ghost s0 = self.st();
        let n = a.size + b.size;
        let (rem2, st1) = scratch_track.split_binregister(n);
        let rem2_tail = rem2.subview(b.size, a.size);
        let ghost ra = a.as_register_spec();
        let ghost rt = reg_sub(scratch_reg(scratch_track, n as int), b.size as int, a.size as int);
        assert(rem2_tail.as_register_spec() == rt);
        self.copy_binregister(a, rem2_tail, st1, false);
        let ghost s1 = self.st();
        assert(s1 == g_foreach_pos(fs, s0, ra, st1, |c: CpuState| g_copy_auto(fs, c, reg_at(ra, 0), reg_at(rt, 0), st1.spec_split(3))));
        let (bsh, st2) = st1.split_binregister(n);
        let bsh_sub = bsh.subview(1, b.size);
        let ghost rb = b.as_register_spec();
        let ghost bs = reg_sub(scratch_reg(st1, n as int), 1, b.size as int);
        assert(bsh_sub.as_register_spec() == bs);
        self.copy_binregister(b, bsh_sub, st2, false);
        let ghost s2 = self.st();
        assert(s2 == g_foreach_pos(fs, s1, rb, st2, |c: CpuState| g_copy_auto(fs, c, reg_at(rb, 0), reg_at(bs, 0), st2.spec_split(3))));
        let (counter, st3) = st2.split_1();
        self.set_byte(counter, a.size as u8);
    }

    #[verifier::spinoff_prover]
    fn div_finish(&mut self, a: BinRegister, b: BinRegister, rem: BinRegister, scratch_track: ScratchTrack)
        requires
            old(self).wf(),
            old(self).cur_frame is Some,
            reg_ok(a.as_register_spec()),
            reg_ok(b.as_register_spec()),
            reg_ok(rem.as_register_spec()),
            rem.size == a.size,
            scratch_room(scratch_track),
            a.size + b.size <= 0x1000,
            scratch_track.left_limit() + 2 * (a.size + b.size) + 4 <= 0xF_0000,
        ensures
            final(self).st() == g_div_finish(old(self).fs(), old(self).st(), a.as_register_spec(), b.as_register_spec(),
                rem.as_register_spec(), scratch_track),
            final(self).cfg == old(self).cfg,
            final(self).cur_frame is Some,
            final(self).wf(),
    {
        let n = a.size + b.size;
        let (rem2, st1) = scratch_track.split_binregister(n);
        let (bsh, st2) = st1.split_binregister(n);
        let (counter, st3) = st2.split_1();
        assert(st3 == scratch_track.spec_split(2 * n + 1));
        reveal(g_div_finish);
        let rem2_tail = rem2.subview(b.size, a.size);
        self.add_binregister_to_binregister(rem2_tail, rem, st3);
        self.clr_binregister(rem2, st3);
        self.clr_binregister(bsh, st3);
    }

    /// Divides `a` by `b` (binary registers, last cell least significant),
    /// adding the quotient onto `div` and the remainder onto `rem` (both of the
    /// size of `a`): long division on a copy of `a` widened by `b.size` cells,
    /// with a copy of `b` shifted right once per quotient bit.
    #[verifier::spinoff_prover]
    pub fn div_binregisters(&mut self, a: BinRegister, b: BinRegister, div: BinRegister, rem: BinRegister, scratch_track: ScratchTrack)
        requires
            old(self).wf(),
            old(self).cur_frame is Some,
            reg_ok(a.as_register_spec()),
            reg_ok(b.as_register_spec()),
            reg_ok(div.as_register_spec()),
            reg_ok(rem.as_register_spec()),
            div.size == a.size,
            rem.size == a.size,
            a.size <= 255,
            a.size + b.size <= 0x1000,
            scratch_room(scratch_track),
            scratch_track.left_limit() + 2 * (a.size + b.size) + a.size + 4 <= 0xF_0000,
        ensures
            final(self).st() == g_div_bins(old(self).fs(), old(self).st(), a.as_register_spec(), b.as_register_spec(),
                div.as_register_spec(), rem.as_register_spec(), scratch_track),
            final(self).cfg == old(self).cfg,
            final(self).cur_frame is Some,
            final(self).wf(),
    {
        let ghost fs = self.fs();
        let n = a.size + b.size;
        self.div_setup(a, b, scratch_track);
        let (rem2, st1) = scratch_track.split_binregister(n);
        let (bsh, st2) = st1.split_binregister(n);
        let (counter, st3) = st2.split_1();
        assert(rem2.as_register_spec() == scratch_reg(scratch_track, n as int));
        assert(bsh.as_register_spec() == scratch_reg(scratch_track.spec_split(n as int), n as int));
        assert(counter == scratch_track.spec_split(2 * n).first());
        assert(st3 == scratch_track.spec_split(2 * n + 1));
        self.goto(counter);
        let mut c = self.child();
        let ghost c0 = c.st();
        c.div_round(rem2, bsh, div, counter, st3, a.size);
        self.close_loop_at(counter, c);
        self.div_finish(a, b, rem, scratch_track);
    }
}


/// Whether `v` has at most `n` binary digits.
pub open spec fn fits_bits(v: nat, n: int) -> bool
    decreases v,
{
    if v == 0 {
        true
    } else if n <= 0 {
        false
    } else {
        fits_bits(v / 2, n - 1)
    }
}

/// Sets the cells of the register to the binary digits of `v`, last cell
/// first, the `i`-th from the end being the next; cells above the highest
/// digit are not touched.
pub open spec fn g_set_bits(fs: int, s: CpuState, r: Register, v: nat, i: int) -> CpuState
    decreases v,
{
    if v == 0 {
        s
    } else {
        g_set_bits(fs, g_set_byte(fs, s, reg_at(r, r.size - i - 1), (v % 2) as u8), r, v / 2, i + 1)
    }
}

impl<'c> Cpu<'c> {
    /// Clears the binary register and sets its cells to the binary digits of
    /// `val`, the last cell holding the least significant one.
    pub fn set_binregister(&mut self, register: BinRegister, val: u64, scratch_track: ScratchTrack)
        requires
            old(self).wf(),
            old(self).cur_frame is Some,
            reg_ok(register.as_register_spec()),
            fits_bits(val as nat, register.size as int),
            scratch_room(scratch_track),
        ensures
            final(self).st() == g_set_bits(old(self).fs(),
                g_clr_register(old(self).fs(), old(self).st(), register.as_register_spec(), scratch_track),
                register.as_register_spec(), val as nat, 0),
            final(self).cfg == old(self).cfg,
            final(self).wf(),
            final(self).cur_frame is Some,
    {
        let ghost fs = self.fs();
        self.clr_binregister(register, scratch_track);
        let ghost s0 = self.st();
        let mut div = val;
        let mut i: isize = 0;
        while div != 0
            invariant
                0 <= i <= register.size,
                self.wf(),
                self.cur_frame is Some,
                self.cfg == old(self).cfg,
                fs == self.fs(),
                reg_ok(register.as_register_spec()),
                fits_bits(div as nat, register.size - i),
                g_set_bits(fs, s0, register.as_register_spec(), val as nat, 0)
                    == g_set_bits(fs, self.st(), register.as_register_spec(), div as nat, i as int),
            decreases div,
        {
            let bit = (div % 2) as u8;
            self.set_byte(register.at(register.size - i - 1), bit);
            div = div / 2;
            i = i + 1;
        }
    }
}

}
