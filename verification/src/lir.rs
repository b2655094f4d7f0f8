use crate::semantics::Op;
use vstd::prelude::*;

verus! {

/// Low-level code: Brainfuck without the optimized operations.
pub enum Lir {
    Left,
    Right,
    Inc,
    Dec,
    In,
    Out,
    Loop(Vec<Lir>),
    Comment(String),
    DebugMessage(String),
    Crash(String),
    Breakpoint,
    PrintRegisters,
    CheckScratchIsEmptyFromHere(String),
}

pub open spec fn lirs_view(s: Seq<Lir>) -> Seq<Op>
    decreases s,
{
    if s.len() == 0 {
        Seq::empty()
    } else {
        lirs_view(s.drop_last()).push(lir_view(s.last()))
    }
}

pub open spec fn lir_view(l: Lir) -> Op
    decreases l,
{
    proof {
        broadcast use vstd::std_specs::vec::axiom_vec_decreases_to_view;
    }
    match l {
        Lir::Left => Op::Left,
        Lir::Right => Op::Right,
        Lir::Inc => Op::Inc,
        Lir::Dec => Op::Dec,
        Lir::In => Op::In,
        Lir::Out => Op::Out,
        Lir::Loop(v) => Op::Loop(lirs_view(v@)),
        Lir::Comment(m) => Op::Comment(m@),
        Lir::DebugMessage(m) => Op::DebugMessage(m@),
        Lir::Crash(m) => Op::Crash(m@),
        Lir::Breakpoint => Op::Breakpoint,
        Lir::PrintRegisters => Op::PrintRegisters,
        Lir::CheckScratchIsEmptyFromHere(m) => Op::CheckScratchIsEmptyFromHere(m@),
    }
}

pub broadcast proof fn lemma_lirs_view(s: Seq<Lir>)
    ensures
        #[trigger] lirs_view(s).len() == s.len(),
        forall|i: int| 0 <= i < s.len() ==> #[trigger] lirs_view(s)[i] == lir_view(s[i]),
    decreases s.len(),
{
    if s.len() > 0 {
        lemma_lirs_view(s.drop_last());
    }
}

pub proof fn lemma_lirs_view_push(s: Seq<Lir>, l: Lir)
    ensures lirs_view(s.push(l)) == lirs_view(s).push(lir_view(l)),
{
    assert(s.push(l).drop_last() =~= s);
}

}
