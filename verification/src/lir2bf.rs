use crate::bf::BfOp;
use crate::lir::{lemma_lirs_view, lir_view, lirs_view, Lir};
use crate::semantics::{lemma_ops_view_push, op_view, ops_view};
use vstd::prelude::*;

verus! {

broadcast use lemma_lirs_view, vstd::std_specs::vec::axiom_vec_index_decreases;

/// Translates one low-level operation to the Brainfuck operation it stands for.
fn lir2bf_op(op: &Lir) -> (r: BfOp)
    ensures op_view(r) == lir_view(*op),
    decreases op,
{
    match op {
        Lir::Left => BfOp::Left,
        Lir::Right => BfOp::Right,
        Lir::Inc => BfOp::Inc,
        Lir::Dec => BfOp::Dec,
        Lir::In => BfOp::In,
        Lir::Out => BfOp::Out,
        Lir::Loop(ops) => BfOp::Loop(lir2bf(ops)),
        Lir::Comment(s) => BfOp::Comment(s.clone()),
        Lir::DebugMessage(s) => BfOp::DebugMessage(s.clone()),
        Lir::Crash(s) => BfOp::Crash(s.clone()),
        Lir::Breakpoint => BfOp::Breakpoint,
        Lir::PrintRegisters => BfOp::PrintRegisters,
        Lir::CheckScratchIsEmptyFromHere(msg) => BfOp::CheckScratchIsEmptyFromHere(msg.clone()),
    }
}

/// Translates low-level code to Brainfuck, operation by operation: the result
/// has the same model as the input.
pub fn lir2bf(ops: &Vec<Lir>) -> (r: Vec<BfOp>)
    ensures ops_view(r@) == lirs_view(ops@),
    decreases ops,
{
    let mut result: Vec<BfOp> = Vec::new();
    let mut i: usize = 0;
    while i < ops.len()
        invariant
            0 <= i <= ops@.len(),
            ops_view(result@) == lirs_view(ops@.take(i as int)),
        decreases ops@.len() - i,
    {
        let o = lir2bf_op(&ops[i]);
        proof {
            lemma_ops_view_push(result@, o);
            assert(ops@.take(i as int).push(ops@[i as int]) =~= ops@.take(i + 1));
            assert(ops@.take(i + 1).drop_last() =~= ops@.take(i as int));
        }
        result.push(o);
        i = i + 1;
    }
    assert(ops@.take(i as int) =~= ops@);
    result
}

}
