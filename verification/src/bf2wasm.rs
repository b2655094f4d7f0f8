use crate::bf::{clone_op, decimal_text, int_text, push_decimal_text, push_int, push_str, BfOp};
use crate::semantics::{op_view, ops_view, optimize, run_one, run_seq, step, Machine, Op};
use vstd::prelude::*;

verus! {

broadcast use crate::semantics::lemma_ops_view, vstd::std_specs::vec::axiom_vec_index_decreases;

// ---------------------------------------------------------------------------
// Splitting a program at its input operations, so that the compiled code can
// stop when input runs out and resume later.
// ---------------------------------------------------------------------------

/// A piece of the program: a block without input, an input operation, or a loop
/// that contains input. `counter` numbers the pieces in the order they finish.
pub struct AsyncifiedOp {
    pub counter: usize,
    pub kind: AsyncifiedOpKind,
}

pub enum AsyncifiedOpKind {
    SyncBlock(Vec<BfOp>),
    In,
    AsyncLoop(Vec<AsyncifiedOp>),
}

/// Model of a piece.
pub struct AOp {
    pub counter: int,
    pub kind: AKind,
}

pub enum AKind {
    Sync(Seq<Op>),
    In,
    ALoop(Seq<AOp>),
}

pub open spec fn aops_view(s: Seq<AsyncifiedOp>) -> Seq<AOp>
    decreases s, 0nat,
{
    if s.len() == 0 {
        Seq::empty()
    } else {
        aops_view(s.drop_last()).push(aop_view(s.last()))
    }
}

pub open spec fn aop_view(a: AsyncifiedOp) -> AOp
    decreases a, 1nat,
{
    AOp {
        counter: a.counter as int,
        kind: match a.kind {
            AsyncifiedOpKind::SyncBlock(v) => AKind::Sync(ops_view(v@)),
            AsyncifiedOpKind::In => AKind::In,
            AsyncifiedOpKind::AsyncLoop(v) => {
                proof { broadcast use vstd::std_specs::vec::axiom_vec_decreases_to_view; }
                AKind::ALoop(aops_view(v@))
            },
        },
    }
}

pub proof fn lemma_aops_view(s: Seq<AsyncifiedOp>)
    ensures
        aops_view(s).len() == s.len(),
        forall|i: int| 0 <= i < s.len() ==> #[trigger] aops_view(s)[i] == aop_view(s[i]),
    decreases s.len(),
{
    if s.len() > 0 {
        lemma_aops_view(s.drop_last());
    }
}

proof fn lemma_aops_view_push(s: Seq<AsyncifiedOp>, a: AsyncifiedOp)
    ensures aops_view(s.push(a)) == aops_view(s).push(aop_view(a)),
{
    assert(s.push(a).drop_last() =~= s);
}

/// Close the pending block without input, if there is one.
pub open spec fn flush_sync(res: Seq<AOp>, sync: Seq<Op>) -> Seq<AOp> {
    if sync.len() == 0 { res } else { res.push(AOp { counter: 0, kind: AKind::Sync(sync) }) }
}

/// The pieces of a sequence of operations (all numbered 0).
pub open spec fn arec(ops: Seq<Op>) -> Seq<AOp>
    decreases ops, 2nat,
{
    let acc = arec_acc(ops);
    flush_sync(acc.0, acc.1)
}

/// The pieces so far, and the pending operations without input.
pub open spec fn arec_acc(ops: Seq<Op>) -> (Seq<AOp>, Seq<Op>)
    decreases ops, 1nat,
{
    if ops.len() == 0 {
        (Seq::empty(), Seq::empty())
    } else {
        astep(arec_acc(ops.drop_last()), ops.last())
    }
}

pub open spec fn astep(acc: (Seq<AOp>, Seq<Op>), op: Op) -> (Seq<AOp>, Seq<Op>)
    decreases op, 0nat,
{
    match op {
        Op::In => (flush_sync(acc.0, acc.1).push(AOp { counter: 0, kind: AKind::In }), Seq::empty()),
        Op::Loop(body) => {
            let r = arec(body);
            // an empty body also leaves an empty loop among the pending operations
            let sync = if r.len() == 0 { acc.1.push(Op::Loop(Seq::empty())) } else { acc.1 };
            if r.len() == 1 {
                match r[0].kind {
                    AKind::Sync(inner) => (acc.0, sync.push(Op::Loop(inner))),
                    AKind::In => (flush_sync(acc.0, sync).push(AOp { counter: 0, kind: AKind::ALoop(seq![AOp { counter: 0, kind: AKind::In }]) }), Seq::empty()),
                    AKind::ALoop(inner) => (flush_sync(acc.0, sync).push(AOp { counter: 0, kind: AKind::ALoop(inner) }), Seq::empty()),
                }
            } else {
                (flush_sync(acc.0, sync).push(AOp { counter: 0, kind: AKind::ALoop(r) }), Seq::empty())
            }
        },
        _ => (acc.0, acc.1.push(op)),
    }
}

/// Numbers the pieces from `c` on, each after the pieces inside it; returns the next number.
pub open spec fn number(ops: Seq<AOp>, c: int) -> (Seq<AOp>, int)
    decreases ops, 1nat,
{
    if ops.len() == 0 {
        (Seq::empty(), c)
    } else {
        let prev = number(ops.drop_last(), c);
        let last = number_op(ops.last(), prev.1);
        (prev.0.push(last.0), last.1)
    }
}

pub open spec fn number_op(op: AOp, c: int) -> (AOp, int)
    decreases op, 0nat,
{
    match op.kind {
        AKind::ALoop(inner) => {
            let r = number(inner, c);
            (AOp { counter: r.1, kind: AKind::ALoop(r.0) }, r.1 + 1)
        },
        _ => (AOp { counter: c, ..op }, c + 1),
    }
}

/// The pieces of a program, numbered from 1.
pub open spec fn asyncify_spec(ops: Seq<Op>) -> Seq<AOp> {
    number(arec(ops), 1).0
}

/// The number of pieces, nested ones included.
pub open spec fn anodes(ops: Seq<AOp>) -> int
    decreases ops, 1nat,
{
    if ops.len() == 0 { 0 } else { anodes(ops.drop_last()) + anode(ops.last()) }
}

pub open spec fn anode(op: AOp) -> int
    decreases op, 0nat,
{
    match op.kind {
        AKind::ALoop(inner) => 1 + anodes(inner),
        _ => 1,
    }
}

}
verus! {

/// No input operation, at any depth.
pub open spec fn no_input(ops: Seq<Op>) -> bool
    decreases ops, 1nat,
{
    ops.len() == 0 || (no_input(ops.drop_last()) && no_input_op(ops.last()))
}

pub open spec fn no_input_op(op: Op) -> bool
    decreases op, 0nat,
{
    match op {
        Op::In => false,
        Op::Loop(body) => no_input(body),
        _ => true,
    }
}

/// Every block without input among the pieces, at any depth, is free of input.
pub open spec fn pieces_ok(p: Seq<AOp>) -> bool
    decreases p, 1nat,
{
    p.len() == 0 || (pieces_ok(p.drop_last()) && piece_ok(p.last()))
}

pub open spec fn piece_ok(a: AOp) -> bool
    decreases a, 0nat,
{
    match a.kind {
        AKind::Sync(ops) => no_input(ops),
        AKind::In => true,
        AKind::ALoop(inner) => pieces_ok(inner),
    }
}

proof fn lemma_pieces_push(p: Seq<AOp>, a: AOp)
    ensures pieces_ok(p.push(a)) == (pieces_ok(p) && piece_ok(a)),
{
    assert(p.push(a).drop_last() =~= p);
}

proof fn lemma_no_input_push(ops: Seq<Op>, op: Op)
    ensures no_input(ops.push(op)) == (no_input(ops) && no_input_op(op)),
{
    assert(ops.push(op).drop_last() =~= ops);
}

proof fn lemma_flush_ok(res: Seq<AOp>, sync: Seq<Op>)
    requires pieces_ok(res), no_input(sync),
    ensures pieces_ok(flush_sync(res, sync)),
{
    if sync.len() > 0 {
        lemma_pieces_push(res, AOp { counter: 0, kind: AKind::Sync(sync) });
    }
}

proof fn lemma_arec_ok(ops: Seq<Op>)
    ensures pieces_ok(arec(ops)),
    decreases ops, 2nat,
{
    lemma_arec_acc_ok(ops);
    lemma_flush_ok(arec_acc(ops).0, arec_acc(ops).1);
}

proof fn lemma_arec_acc_ok(ops: Seq<Op>)
    ensures pieces_ok(arec_acc(ops).0), no_input(arec_acc(ops).1),
    decreases ops, 1nat,
{
    if ops.len() > 0 {
        lemma_arec_acc_ok(ops.drop_last());
        lemma_astep_ok(arec_acc(ops.drop_last()), ops.last());
    }
}

proof fn lemma_astep_ok(acc: (Seq<AOp>, Seq<Op>), op: Op)
    requires pieces_ok(acc.0), no_input(acc.1),
    ensures pieces_ok(astep(acc, op).0), no_input(astep(acc, op).1),
    decreases op, 0nat,
{
    let e = Seq::<Op>::empty();
    assert(no_input(e));
    match op {
        Op::In => {
            lemma_flush_ok(acc.0, acc.1);
            lemma_pieces_push(flush_sync(acc.0, acc.1), AOp { counter: 0, kind: AKind::In });
        },
        Op::Loop(body) => {
            let r = arec(body);
            lemma_arec_ok(body);
            lemma_no_input_push(acc.1, Op::Loop(e));
            let sync = if r.len() == 0 { acc.1.push(Op::Loop(e)) } else { acc.1 };
            assert(no_input(sync));
            lemma_flush_ok(acc.0, sync);
            if r.len() == 1 {
                assert(r.drop_last() =~= Seq::<AOp>::empty());
                assert(piece_ok(r[0]));
                match r[0].kind {
                    AKind::Sync(inner) => {
                        lemma_no_input_push(sync, Op::Loop(inner));
                    },
                    AKind::In => {
                        let one = seq![AOp { counter: 0, kind: AKind::In }];
                        lemma_pieces_push(Seq::empty(), AOp { counter: 0, kind: AKind::In });
                        assert(Seq::<AOp>::empty().push(AOp { counter: 0, kind: AKind::In }) =~= one);
                        lemma_pieces_push(flush_sync(acc.0, sync), AOp { counter: 0, kind: AKind::ALoop(one) });
                    },
                    AKind::ALoop(inner) => {
                        lemma_pieces_push(flush_sync(acc.0, sync), AOp { counter: 0, kind: AKind::ALoop(inner) });
                    },
                }
            } else {
                lemma_pieces_push(flush_sync(acc.0, sync), AOp { counter: 0, kind: AKind::ALoop(r) });
            }
        },
        _ => {
            lemma_no_input_push(acc.1, op);
        },
    }
}

proof fn lemma_number_ok(ops: Seq<AOp>, c: int)
    requires pieces_ok(ops),
    ensures pieces_ok(number(ops, c).0),
    decreases ops, 1nat,
{
    if ops.len() > 0 {
        let prev = number(ops.drop_last(), c);
        lemma_number_ok(ops.drop_last(), c);
        lemma_number_op_ok(ops.last(), prev.1);
        lemma_pieces_push(prev.0, number_op(ops.last(), prev.1).0);
    }
}

proof fn lemma_number_op_ok(op: AOp, c: int)
    requires piece_ok(op),
    ensures piece_ok(number_op(op, c).0),
    decreases op, 0nat,
{
    if let AKind::ALoop(inner) = op.kind {
        lemma_number_ok(inner, c);
    }
}

/// Splitting a program at its input operations leaves no input operation in a
/// block without input, at any depth.
pub proof fn lemma_asyncify_sync_blocks(ops: Seq<Op>)
    ensures pieces_ok(asyncify_spec(ops)),
{
    lemma_arec_ok(ops);
    lemma_number_ok(arec(ops), 1);
}

proof fn lemma_take_last<A>(s: Seq<A>, i: int)
    requires 0 <= i < s.len(),
    ensures
        s.take(i + 1).drop_last() == s.take(i),
        s.take(i + 1).last() == s[i],
{
    assert(s.take(i + 1).drop_last() =~= s.take(i));
}

fn flush_sync_ops(result: &mut Vec<AsyncifiedOp>, sync_ops: &mut Vec<BfOp>)
    ensures
        aops_view(final(result)@) == flush_sync(aops_view(old(result)@), ops_view(old(sync_ops)@)),
        final(sync_ops)@.len() == 0,
{
    if sync_ops.len() > 0 {
        let mut s: Vec<BfOp> = Vec::new();
        std::mem::swap(&mut s, sync_ops);
        let a = AsyncifiedOp { counter: 0, kind: AsyncifiedOpKind::SyncBlock(s) };
        proof { lemma_aops_view_push(result@, a); }
        result.push(a);
    }
}

fn push_aop(result: &mut Vec<AsyncifiedOp>, a: AsyncifiedOp)
    ensures aops_view(final(result)@) == aops_view(old(result)@).push(aop_view(a)),
{
    proof { lemma_aops_view_push(result@, a); }
    result.push(a);
}

fn push_op(v: &mut Vec<BfOp>, op: BfOp)
    ensures ops_view(final(v)@) == ops_view(old(v)@).push(op_view(op)),
{
    proof { crate::semantics::lemma_ops_view_push(v@, op); }
    v.push(op);
}

/// Splits operations into pieces: runs without input, input operations, and
/// loops that contain input (all numbered 0).
fn asyncify_rec(ops: &Vec<BfOp>) -> (r: Vec<AsyncifiedOp>)
    ensures aops_view(r@) == arec(ops_view(ops@)),
    decreases ops,
{
    let ghost v = ops_view(ops@);
    let mut result: Vec<AsyncifiedOp> = Vec::new();
    let mut sync_ops: Vec<BfOp> = Vec::new();
    let mut i: usize = 0;
    proof {
        assert(v.take(0) =~= Seq::<Op>::empty());
        assert(aops_view(result@) =~= Seq::<AOp>::empty());
        assert(ops_view(sync_ops@) =~= Seq::<Op>::empty());
    }
    while i < ops.len()
        invariant
            0 <= i <= ops@.len(),
            v == ops_view(ops@),
            (aops_view(result@), ops_view(sync_ops@)) == arec_acc(v.take(i as int)),
        decreases ops@.len() - i,
    {
        proof { lemma_take_last(v, i as int); }
        assert(ops_view(ops@)[i as int] == op_view(ops@[i as int]));
        let ghost acc = arec_acc(v.take(i as int));
        match &ops[i] {
            BfOp::In => {
                flush_sync_ops(&mut result, &mut sync_ops);
                push_aop(&mut result, AsyncifiedOp { counter: 0, kind: AsyncifiedOpKind::In });
                assert(ops_view(sync_ops@) =~= Seq::<Op>::empty());
                assert((aops_view(result@), ops_view(sync_ops@)) == astep(acc, v[i as int]));
            },
            BfOp::Loop(body) => {
                let mut rec_result = asyncify_rec(body);
                let ghost r = arec(ops_view(body@));
                proof { lemma_aops_view(rec_result@); }
                assert(v[i as int] == Op::Loop(ops_view(body@)));
                let ghost sync1 = if r.len() == 0 { acc.1.push(Op::Loop(Seq::empty())) } else { acc.1 };
                if rec_result.len() == 0 {
                    push_op(&mut sync_ops, BfOp::Loop(Vec::new()));
                    assert(ops_view(Seq::<BfOp>::empty()) =~= Seq::<Op>::empty());
                }
                assert(ops_view(sync_ops@) == sync1);
                if rec_result.len() == 1 {
                    let only = rec_result.pop().unwrap();
                    assert(aop_view(only) == r[0]);
                    match only.kind {
                        AsyncifiedOpKind::SyncBlock(rec_ops) => {
                            assert(r[0].kind == AKind::Sync(ops_view(rec_ops@)));
                            push_op(&mut sync_ops, BfOp::Loop(rec_ops));
                            assert((aops_view(result@), ops_view(sync_ops@)) == astep(acc, v[i as int]));
                        },
                        AsyncifiedOpKind::In => {
                            flush_sync_ops(&mut result, &mut sync_ops);
                            let mut inner: Vec<AsyncifiedOp> = Vec::new();
                            push_aop(&mut inner, AsyncifiedOp { counter: 0, kind: AsyncifiedOpKind::In });
                            assert(aops_view(inner@) =~= seq![AOp { counter: 0, kind: AKind::In }]);
                            push_aop(&mut result, AsyncifiedOp { counter: 0, kind: AsyncifiedOpKind::AsyncLoop(inner) });
                            assert(ops_view(sync_ops@) =~= Seq::<Op>::empty());
                            assert((aops_view(result@), ops_view(sync_ops@)) == astep(acc, v[i as int]));
                        },
                        AsyncifiedOpKind::AsyncLoop(rec_ops) => {
                            assert(r[0].kind == AKind::ALoop(aops_view(rec_ops@)));
                            flush_sync_ops(&mut result, &mut sync_ops);
                            push_aop(&mut result, AsyncifiedOp { counter: 0, kind: AsyncifiedOpKind::AsyncLoop(rec_ops) });
                            assert(ops_view(sync_ops@) =~= Seq::<Op>::empty());
                            assert((aops_view(result@), ops_view(sync_ops@)) == astep(acc, v[i as int]));
                        },
                    }
                } else {
                    flush_sync_ops(&mut result, &mut sync_ops);
                    push_aop(&mut result, AsyncifiedOp { counter: 0, kind: AsyncifiedOpKind::AsyncLoop(rec_result) });
                    assert(ops_view(sync_ops@) =~= Seq::<Op>::empty());
                    assert((aops_view(result@), ops_view(sync_ops@)) == astep(acc, v[i as int]));
                }
            },
            op => {
                push_op(&mut sync_ops, clone_op(op));
                assert((aops_view(result@), ops_view(sync_ops@)) == astep(acc, v[i as int]));
            },
        }
        i = i + 1;
    }
    assert(v.take(i as int) =~= v);
    flush_sync_ops(&mut result, &mut sync_ops);
    result
}

proof fn lemma_anodes_nonneg(ops: Seq<AOp>)
    ensures anodes(ops) >= 0,
    decreases ops, 1nat,
{
    if ops.len() > 0 {
        lemma_anodes_nonneg(ops.drop_last());
        lemma_anode_pos(ops.last());
    }
}

proof fn lemma_anode_pos(op: AOp)
    ensures anode(op) >= 1,
    decreases op, 0nat,
{
    if let AKind::ALoop(inner) = op.kind {
        lemma_anodes_nonneg(inner);
    }
}

proof fn lemma_number_count(ops: Seq<AOp>, c: int)
    ensures number(ops, c).1 == c + anodes(ops),
    decreases ops, 1nat,
{
    if ops.len() > 0 {
        lemma_number_count(ops.drop_last(), c);
        lemma_number_op_count(ops.last(), number(ops.drop_last(), c).1);
    }
}

proof fn lemma_number_op_count(op: AOp, c: int)
    ensures number_op(op, c).1 == c + anode(op),
    decreases op, 0nat,
{
    if let AKind::ALoop(inner) = op.kind {
        lemma_number_count(inner, c);
    }
}

proof fn lemma_anodes_take(ops: Seq<AOp>, k: int)
    requires 0 <= k <= ops.len(),
    ensures 0 <= anodes(ops.take(k)) <= anodes(ops),
    decreases ops.len() - k,
{
    if k == ops.len() {
        assert(ops.take(k) =~= ops);
        lemma_anodes_nonneg(ops);
    } else {
        lemma_take_last(ops, k);
        lemma_anode_pos(ops[k]);
        lemma_anodes_take(ops, k + 1);
        lemma_anodes_nonneg(ops.take(k));
    }
}

/// Numbers the pieces from `c` on, each after the pieces inside it.
#[verifier::loop_isolation(false)]
fn number_ops(ops: Vec<AsyncifiedOp>, c: usize) -> (r: (Vec<AsyncifiedOp>, usize))
    requires c + anodes(aops_view(ops@)) < usize::MAX,
    ensures
        aops_view(r.0@) == number(aops_view(ops@), c as int).0,
        r.1 == number(aops_view(ops@), c as int).1,
    decreases anodes(aops_view(ops@)),
{
    let ghost orig = aops_view(ops@);
    let n0 = ops.len();
    proof { lemma_aops_view(ops@); }
    let mut rest = ops;
    let mut out: Vec<AsyncifiedOp> = Vec::new();
    let mut cur = c;
    let mut k: usize = 0;
    proof {
        assert(orig.take(0) =~= Seq::<AOp>::empty());
        assert(aops_view(out@) =~= Seq::<AOp>::empty());
        lemma_anodes_nonneg(orig);
    }
    while rest.len() > 0
        invariant
            0 <= k <= orig.len(),
            orig.len() == n0,
            k + rest@.len() == n0,
            aops_view(rest@) == orig.skip(k as int),
            aops_view(out@) == number(orig.take(k as int), c as int).0,
            cur == number(orig.take(k as int), c as int).1,
            cur == c + anodes(orig.take(k as int)),
            c + anodes(orig) < usize::MAX,
        decreases rest@.len(),
    {
        proof { lemma_aops_view(rest@); }
        let ghost rest0 = rest@;
        assert(aops_view(rest0).len() == rest0.len());
        assert(k < orig.len());
        assert(aops_view(rest0)[0] == aop_view(rest0[0]));
        assert(orig.skip(k as int)[0] == orig[k as int]);
        let op = rest.remove(0);
        proof {
            lemma_aops_view(rest@);
            assert(rest@ =~= rest0.skip(1));
            assert(op == rest0[0]);
            assert(aop_view(op) == orig[k as int]);
            assert forall|j: int| 0 <= j < rest@.len() implies #[trigger] aops_view(rest@)[j] == orig.skip(k + 1)[j] by {
                assert(aops_view(rest0)[j + 1] == aop_view(rest0[j + 1]));
            }
            assert(aops_view(rest@) =~= orig.skip(k + 1));
            lemma_take_last(orig, k as int);
            lemma_anodes_take(orig, k + 1);
            lemma_number_op_count(orig[k as int], cur as int);
            lemma_number_count(orig.take(k + 1), c as int);
        }
        let numbered = match op.kind {
            AsyncifiedOpKind::AsyncLoop(inner) => {
                proof {
                    assert(anode(orig[k as int]) == 1 + anodes(aops_view(inner@)));
                    lemma_anodes_take(orig, k as int);
                    assert(anodes(aops_view(inner@)) < anodes(orig));
                    lemma_anodes_nonneg(aops_view(inner@));
                }
                let (inner2, c2) = number_ops(inner, cur);
                let a = AsyncifiedOp { counter: c2, kind: AsyncifiedOpKind::AsyncLoop(inner2) };
                cur = c2 + 1;
                a
            },
            kind => {
                let a = AsyncifiedOp { counter: cur, kind };
                cur = cur + 1;
                a
            },
        };
        push_aop(&mut out, numbered);
        k = k + 1;
    }
    assert(orig.take(k as int) =~= orig);
    (out, cur)
}

/// The pieces of a program, numbered from 1 in the order they finish.
fn asyncify(ops: &Vec<BfOp>) -> (r: Vec<AsyncifiedOp>)
    requires 1 + anodes(arec(ops_view(ops@))) < usize::MAX,
    ensures aops_view(r@) == asyncify_spec(ops_view(ops@)),
{
    let pieces = asyncify_rec(ops);
    let (numbered, _) = number_ops(pieces, 1);
    numbered
}

}

verus! {

// ---------------------------------------------------------------------------
// The WebAssembly text of a program.
// ---------------------------------------------------------------------------

pub open spec fn in_i16(x: int) -> bool {
    -32768 <= x <= 32767
}

pub open spec fn min_of(a: int, b: int) -> int {
    if a < b { a } else { b }
}

/// Moves the cell pointer by `n`.
pub open spec fn move_ptr_text(n: int) -> Seq<char> {
    "(local.set $cell_ptr (i32.add (local.get $cell_ptr) (i32.const "@ + int_text(n) + ")))"@
}

/// Reads the cell at offset `o` from the cell pointer.
pub open spec fn load_text(o: int) -> Seq<char> {
    "(i32.load8_u offset="@ + int_text(o) + " (local.get $cell_ptr))"@
}

/// Writes the value `v` to the cell at offset `o` from the cell pointer.
pub open spec fn store_text(o: int, v: Seq<char>) -> Seq<char> {
    "(i32.store8 offset="@ + int_text(o) + " (local.get $cell_ptr) "@ + v + ")\n"@
}

/// Keeps the cell at offset `o` in a local.
pub open spec fn tmp_text(o: int) -> Seq<char> {
    "(local.set $tmp1 "@ + load_text(o) + ")\n"@
}

pub open spec fn add_text(a: Seq<char>, b: Seq<char>) -> Seq<char> {
    "(i32.add "@ + a + " "@ + b + ")"@
}

pub open spec fn const_text(v: int) -> Seq<char> {
    "(i32.const "@ + int_text(v) + ")"@
}

/// Adds the constant `v` to the cell at offset `o`.
pub open spec fn add_const_text(o: int, v: int) -> Seq<char> {
    store_text(o, add_text(load_text(o), const_text(v)))
}

pub open spec fn out_text() -> Seq<char> {
    "(global.set $cell_ptr_global (local.get $cell_ptr))(call $write_output_byte (i32.load8_u (local.get $cell_ptr)))\n"@
}

/// Opens loop number `n`; `p` tells loops with input (`async_`) from the others.
pub open spec fn loop_open_text(p: Seq<char>, n: int) -> Seq<char> {
    "(loop $"@ + p + "bf_loop_"@ + decimal_text(n as nat) + "\n(block $"@ + p + "bf_loop_block_"@
        + decimal_text(n as nat) + "\n(br_if $"@ + p + "bf_loop_block_"@ + decimal_text(n as nat)
        + " (i32.eqz (i32.load8_u (local.get $cell_ptr))))\n"@
}

pub open spec fn loop_close_text(p: Seq<char>, n: int) -> Seq<char> {
    "(br $"@ + p + "bf_loop_"@ + decimal_text(n as nat) + ")\n)\n)\n"@
}

/// The text of a block without input so far: the text, the pointer offset not
/// yet applied, the next loop number, and whether nothing overflowed.
pub struct SyncWat {
    pub text: Seq<char>,
    pub shift: int,
    pub cnt: int,
    pub ok: bool,
}

pub open spec fn emit(st: SyncWat, t: Seq<char>) -> SyncWat {
    SyncWat { text: st.text + t, ..st }
}

/// Applies part of the pending offset, so that every offset from `min` on is
/// not negative.
pub open spec fn assure(st: SyncWat, min: int) -> SyncWat {
    if st.shift + min < 0 {
        SyncWat {
            text: st.text + move_ptr_text(st.shift + min),
            shift: -min,
            ok: st.ok && in_i16(st.shift + min) && in_i16(-min),
            ..st
        }
    } else {
        st
    }
}

/// Applies the whole pending offset.
pub open spec fn settle(st: SyncWat) -> SyncWat {
    if st.shift != 0 {
        SyncWat { text: st.text + move_ptr_text(st.shift), shift: 0, ..st }
    } else {
        st
    }
}

pub open spec fn with_shift(st: SyncWat, s: int) -> SyncWat {
    SyncWat { shift: s, ok: st.ok && in_i16(s), ..st }
}

pub open spec fn sync_step(st: SyncWat, op: Op) -> SyncWat
    decreases op, 0nat,
{
    match op {
        Op::Inc => {
            let a = assure(st, 0);
            emit(a, add_const_text(a.shift, 1))
        },
        Op::Dec => {
            let a = assure(st, 0);
            emit(a, add_const_text(a.shift, -1))
        },
        Op::Right => with_shift(st, st.shift + 1),
        Op::Left => with_shift(st, st.shift - 1),
        Op::In => SyncWat { ok: false, ..st },
        Op::Out => emit(settle(st), out_text()),
        Op::Loop(body) => {
            let f = settle(st);
            let inner = sync_text(body, f.cnt + 1);
            SyncWat {
                text: f.text + loop_open_text(Seq::empty(), f.cnt) + inner.text + loop_close_text(Seq::empty(), f.cnt),
                shift: 0,
                cnt: inner.cnt,
                ok: f.ok && f.cnt < usize::MAX && inner.ok,
            }
        },
        Op::Clr => {
            let a = assure(st, 0);
            emit(a, store_text(a.shift, const_text(0)))
        },
        Op::Shift(s) => with_shift(st, st.shift + s),
        Op::Add(v) => {
            let a = assure(st, 0);
            emit(a, add_const_text(a.shift, v as int))
        },
        Op::MoveAdd(s) => {
            let a = assure(st, min_of(0, s));
            let t = a.shift + s;
            SyncWat {
                text: a.text + store_text(t, add_text(load_text(t), load_text(a.shift))) + store_text(a.shift, const_text(0)),
                ok: a.ok && s != 0 && in_i16(t),
                ..a
            }
        },
        Op::MoveAdd2(s1, s2) => {
            let a = assure(st, min_of(0, min_of(s1, s2)));
            let t1 = a.shift + s1;
            let t2 = a.shift + s2;
            SyncWat {
                text: a.text + tmp_text(a.shift)
                    + store_text(t1, add_text(load_text(t1), "(local.get $tmp1)"@))
                    + store_text(t2, add_text(load_text(t2), "(local.get $tmp1)"@))
                    + store_text(a.shift, const_text(0)),
                ok: a.ok && s1 != 0 && s2 != 0 && in_i16(t1) && in_i16(t2),
                ..a
            }
        },
        _ => st,
    }
}

pub open spec fn sync_acc(ops: Seq<Op>, cnt: int) -> SyncWat
    decreases ops, 1nat,
{
    if ops.len() == 0 {
        SyncWat { text: Seq::empty(), shift: 0, cnt, ok: true }
    } else {
        sync_step(sync_acc(ops.drop_last(), cnt), ops.last())
    }
}

/// The text of a block without input, its loops numbered from `cnt`.
pub open spec fn sync_text(ops: Seq<Op>, cnt: int) -> SyncWat
    decreases ops, 2nat,
{
    settle(sync_acc(ops, cnt))
}

}
verus! {

fn emit_move_ptr(out: &mut String, n: i32)
    ensures final(out)@ == old(out)@ + move_ptr_text(n as int),
{
    push_str(out, "(local.set $cell_ptr (i32.add (local.get $cell_ptr) (i32.const ");
    push_int(out, n);
    push_str(out, ")))");
    assert(final(out)@ =~= old(out)@ + move_ptr_text(n as int));
}

fn emit_load(out: &mut String, o: i32)
    ensures final(out)@ == old(out)@ + load_text(o as int),
{
    push_str(out, "(i32.load8_u offset=");
    push_int(out, o);
    push_str(out, " (local.get $cell_ptr))");
    assert(final(out)@ =~= old(out)@ + load_text(o as int));
}

fn emit_tmp(out: &mut String, o: i32)
    ensures final(out)@ == old(out)@ + tmp_text(o as int),
{
    push_str(out, "(local.set $tmp1 ");
    emit_load(out, o);
    push_str(out, ")\n");
    assert(final(out)@ =~= old(out)@ + tmp_text(o as int));
}

fn emit_store_open(out: &mut String, o: i32)
    ensures final(out)@ == old(out)@ + "(i32.store8 offset="@ + int_text(o as int) + " (local.get $cell_ptr) "@,
{
    push_str(out, "(i32.store8 offset=");
    push_int(out, o);
    push_str(out, " (local.get $cell_ptr) ");
}

fn emit_add_const(out: &mut String, o: i32, v: i32)
    ensures final(out)@ == old(out)@ + add_const_text(o as int, v as int),
{
    let ghost base = out@;
    emit_store_open(out, o);
    let ghost a = out@;
    push_str(out, "(i32.add ");
    emit_load(out, o);
    push_str(out, " ");
    push_str(out, "(i32.const ");
    push_int(out, v);
    push_str(out, ")");
    push_str(out, ")");
    assert(out@ =~= a + add_text(load_text(o as int), const_text(v as int)));
    push_str(out, ")\n");
    assert(final(out)@ =~= base + add_const_text(o as int, v as int));
}

fn emit_clear(out: &mut String, o: i32)
    ensures final(out)@ == old(out)@ + store_text(o as int, const_text(0)),
{
    let ghost base = out@;
    emit_store_open(out, o);
    push_str(out, "(i32.const ");
    push_int(out, 0);
    push_str(out, ")");
    push_str(out, ")\n");
    assert(final(out)@ =~= base + store_text(o as int, const_text(0)));
}

/// Adds `v` (text of a value) to the cell at offset `o`.
fn emit_add_value(out: &mut String, o: i32, v: &str)
    ensures final(out)@ == old(out)@ + store_text(o as int, add_text(load_text(o as int), v@)),
{
    let ghost base = out@;
    emit_store_open(out, o);
    let ghost a = out@;
    push_str(out, "(i32.add ");
    emit_load(out, o);
    push_str(out, " ");
    push_str(out, v);
    push_str(out, ")");
    assert(out@ =~= a + add_text(load_text(o as int), v@));
    push_str(out, ")\n");
    assert(final(out)@ =~= base + store_text(o as int, add_text(load_text(o as int), v@)));
}

/// Adds the cell at offset `s` to the cell at offset `t`.
fn emit_add_cell(out: &mut String, t: i32, s: i32)
    ensures final(out)@ == old(out)@ + store_text(t as int, add_text(load_text(t as int), load_text(s as int))),
{
    let ghost base = out@;
    emit_store_open(out, t);
    let ghost a = out@;
    push_str(out, "(i32.add ");
    emit_load(out, t);
    push_str(out, " ");
    emit_load(out, s);
    push_str(out, ")");
    assert(out@ =~= a + add_text(load_text(t as int), load_text(s as int)));
    push_str(out, ")\n");
    assert(final(out)@ =~= base + store_text(t as int, add_text(load_text(t as int), load_text(s as int))));
}

fn emit_loop_open(out: &mut String, p: &str, n: usize)
    ensures final(out)@ == old(out)@ + loop_open_text(p@, n as int),
{
    let ghost base = out@;
    push_str(out, "(loop $");
    push_str(out, p);
    push_str(out, "bf_loop_");
    push_decimal_text(out, n as u64);
    push_str(out, "\n(block $");
    push_str(out, p);
    push_str(out, "bf_loop_block_");
    push_decimal_text(out, n as u64);
    push_str(out, "\n(br_if $");
    push_str(out, p);
    push_str(out, "bf_loop_block_");
    push_decimal_text(out, n as u64);
    push_str(out, " (i32.eqz (i32.load8_u (local.get $cell_ptr))))\n");
    assert(final(out)@ =~= base + loop_open_text(p@, n as int));
}

fn emit_loop_close(out: &mut String, p: &str, n: usize)
    ensures final(out)@ == old(out)@ + loop_close_text(p@, n as int),
{
    let ghost base = out@;
    push_str(out, "(br $");
    push_str(out, p);
    push_str(out, "bf_loop_");
    push_decimal_text(out, n as u64);
    push_str(out, ")\n)\n)\n");
    assert(final(out)@ =~= base + loop_close_text(p@, n as int));
}

/// Applies part of the pending offset `shift`, so that every offset from `min`
/// on is not negative.
fn assure_offsets(out: &mut String, shift: &mut i32, min: i32)
    requires
        in_i16(*old(shift) as int),
        -32768 <= min <= 0,
        *old(shift) + min < 0 ==> in_i16(*old(shift) + min) && in_i16(-min),
    ensures
        *old(shift) + min < 0 ==> final(out)@ == old(out)@ + move_ptr_text(*old(shift) + min) && *final(shift) == -min,
        *old(shift) + min >= 0 ==> final(out)@ == old(out)@ && *final(shift) == *old(shift),
{
    if *shift + min < 0 {
        emit_move_ptr(out, *shift + min);
        *shift = -min;
    }
}

}
verus! {

proof fn lemma_sync_step_ok(st: SyncWat, op: Op)
    ensures
        sync_step(st, op).ok ==> st.ok,
        sync_step(st, op).ok && in_i16(st.shift) ==> in_i16(sync_step(st, op).shift),
{
}

proof fn lemma_sync_acc_shift(ops: Seq<Op>, cnt: int)
    ensures sync_acc(ops, cnt).ok ==> in_i16(sync_acc(ops, cnt).shift),
    decreases ops.len(),
{
    if ops.len() > 0 {
        lemma_sync_acc_shift(ops.drop_last(), cnt);
        lemma_sync_step_ok(sync_acc(ops.drop_last(), cnt), ops.last());
    }
}

proof fn lemma_sync_prefix_ok(ops: Seq<Op>, cnt: int, i: int)
    requires
        0 <= i <= ops.len(),
        sync_acc(ops, cnt).ok,
    ensures sync_acc(ops.take(i), cnt).ok,
    decreases ops.len(),
{
    if i == ops.len() {
        assert(ops.take(i) =~= ops);
    } else {
        lemma_sync_step_ok(sync_acc(ops.drop_last(), cnt), ops.last());
        assert(ops.drop_last().take(i) =~= ops.take(i));
        lemma_sync_prefix_ok(ops.drop_last(), cnt, i);
    }
}

proof fn lemma_app(base: Seq<char>, t: Seq<char>, p: Seq<char>)
    ensures (base + t) + p == base + (t + p),
{
    assert((base + t) + p =~= base + (t + p));
}

/// `assure_offsets` on the model.
fn wat_assure(out: &mut String, shift: &mut i32, min: i32, Ghost(base): Ghost<Seq<char>>, Ghost(st): Ghost<SyncWat>)
    requires
        old(out)@ == base + st.text,
        *old(shift) as int == st.shift,
        in_i16(st.shift),
        -32768 <= min <= 0,
        assure(st, min as int).ok,
    ensures
        final(out)@ == base + assure(st, min as int).text,
        *final(shift) as int == assure(st, min as int).shift,
        in_i16(*final(shift) as int),
{
    assure_offsets(out, shift, min);
    proof {
        if st.shift + min < 0 {
            lemma_app(base, st.text, move_ptr_text(st.shift + min));
        }
    }
}

/// Writes the text of one operation other than a loop.
#[verifier::spinoff_prover]
fn sync_simple_wat(op: &BfOp, out: &mut String, shift: &mut i32, Ghost(base): Ghost<Seq<char>>, Ghost(st): Ghost<SyncWat>)
    requires
        !(op is Loop),
        old(out)@ == base + st.text,
        *old(shift) as int == st.shift,
        in_i16(st.shift),
        sync_step(st, crate::semantics::op_view(*op)).ok,
    ensures
        final(out)@ == base + sync_step(st, crate::semantics::op_view(*op)).text,
        *final(shift) as int == sync_step(st, crate::semantics::op_view(*op)).shift,
{
    match op {
        BfOp::Inc => {
            wat_assure(out, shift, 0, Ghost(base), Ghost(st));
            let ghost a = assure(st, 0);
            emit_add_const(out, *shift, 1);
            proof { lemma_app(base, a.text, add_const_text(a.shift, 1)); }
        },
        BfOp::Dec => {
            wat_assure(out, shift, 0, Ghost(base), Ghost(st));
            let ghost a = assure(st, 0);
            emit_add_const(out, *shift, -1);
            proof { lemma_app(base, a.text, add_const_text(a.shift, -1)); }
        },
        BfOp::Right => {
            *shift = *shift + 1;
        },
        BfOp::Left => {
            *shift = *shift - 1;
        },
        BfOp::In => {},
        BfOp::Out => {
            let ghost f = settle(st);
            if *shift != 0 {
                emit_move_ptr(out, *shift);
                *shift = 0;
                proof { lemma_app(base, st.text, move_ptr_text(st.shift)); }
            }
            push_str(out, "(global.set $cell_ptr_global (local.get $cell_ptr))(call $write_output_byte (i32.load8_u (local.get $cell_ptr)))\n");
            proof { lemma_app(base, f.text, out_text()); }
        },
        BfOp::Clr => {
            wat_assure(out, shift, 0, Ghost(base), Ghost(st));
            let ghost a = assure(st, 0);
            emit_clear(out, *shift);
            proof { lemma_app(base, a.text, store_text(a.shift, const_text(0))); }
        },
        BfOp::Shift(s) => {
            *shift = *shift + *s as i32;
        },
        BfOp::Add(v) => {
            wat_assure(out, shift, 0, Ghost(base), Ghost(st));
            let ghost a = assure(st, 0);
            emit_add_const(out, *shift, *v as i32);
            proof { lemma_app(base, a.text, add_const_text(a.shift, *v as int)); }
        },
        BfOp::MoveAdd(s) => {
            sync_move_add_wat(*s, out, shift, Ghost(base), Ghost(st));
        },
        BfOp::MoveAdd2(s1, s2) => {
            sync_move_add2_wat(*s1, *s2, out, shift, Ghost(base), Ghost(st));
        },
        _ => {},
    }
}

fn sync_move_add_wat(s: i16, out: &mut String, shift: &mut i32, Ghost(base): Ghost<Seq<char>>, Ghost(st): Ghost<SyncWat>)
    requires
        old(out)@ == base + st.text,
        *old(shift) as int == st.shift,
        in_i16(st.shift),
        sync_step(st, Op::MoveAdd(s as int)).ok,
    ensures
        final(out)@ == base + sync_step(st, Op::MoveAdd(s as int)).text,
        *final(shift) as int == sync_step(st, Op::MoveAdd(s as int)).shift,
{
    let m: i32 = if s < 0 { s as i32 } else { 0 };
    wat_assure(out, shift, m, Ghost(base), Ghost(st));
    let ghost a = assure(st, m as int);
    let ghost t = a.shift + s;
    emit_add_cell(out, *shift + s as i32, *shift);
    proof { lemma_app(base, a.text, store_text(t, add_text(load_text(t), load_text(a.shift)))); }
    let ghost a2 = a.text + store_text(t, add_text(load_text(t), load_text(a.shift)));
    emit_clear(out, *shift);
    proof { lemma_app(base, a2, store_text(a.shift, const_text(0))); }
}

fn sync_move_add2_wat(s1: i16, s2: i16, out: &mut String, shift: &mut i32, Ghost(base): Ghost<Seq<char>>, Ghost(st): Ghost<SyncWat>)
    requires
        old(out)@ == base + st.text,
        *old(shift) as int == st.shift,
        in_i16(st.shift),
        sync_step(st, Op::MoveAdd2(s1 as int, s2 as int)).ok,
    ensures
        final(out)@ == base + sync_step(st, Op::MoveAdd2(s1 as int, s2 as int)).text,
        *final(shift) as int == sync_step(st, Op::MoveAdd2(s1 as int, s2 as int)).shift,
{
    let m1: i32 = if s1 < s2 { s1 as i32 } else { s2 as i32 };
    let m: i32 = if m1 < 0 { m1 } else { 0 };
    wat_assure(out, shift, m, Ghost(base), Ghost(st));
    let ghost a = assure(st, m as int);
    let ghost t1 = a.shift + s1;
    let ghost t2 = a.shift + s2;
    let ghost p1 = tmp_text(a.shift);
    let ghost p2 = store_text(t1, add_text(load_text(t1), "(local.get $tmp1)"@));
    let ghost p3 = store_text(t2, add_text(load_text(t2), "(local.get $tmp1)"@));
    let ghost p4 = store_text(a.shift, const_text(0));
    emit_tmp(out, *shift);
    proof { lemma_app(base, a.text, p1); }
    emit_add_value(out, *shift + s1 as i32, "(local.get $tmp1)");
    proof { lemma_app(base, a.text + p1, p2); }
    emit_add_value(out, *shift + s2 as i32, "(local.get $tmp1)");
    proof { lemma_app(base, a.text + p1 + p2, p3); }
    emit_clear(out, *shift);
    proof { lemma_app(base, a.text + p1 + p2 + p3, p4); }
}

/// Writes the text of a block without input; its loops are numbered from `*cnt`.
fn sync_ops_wat(ops: &Vec<BfOp>, out: &mut String, cnt: &mut usize)
    requires sync_text(ops_view(ops@), *old(cnt) as int).ok,
    ensures
        final(out)@ == old(out)@ + sync_text(ops_view(ops@), *old(cnt) as int).text,
        *final(cnt) == sync_text(ops_view(ops@), *old(cnt) as int).cnt,
    decreases ops,
{
    let ghost v = ops_view(ops@);
    let ghost c0 = *cnt as int;
    let ghost base = out@;
    let mut shift: i32 = 0;
    let mut i: usize = 0;
    proof {
        reveal_strlit("");
        assert(v.take(0) =~= Seq::<Op>::empty());
        assert(out@ =~= base + Seq::<char>::empty());
    }
    while i < ops.len()
        invariant
            0 <= i <= ops@.len(),
            v == ops_view(ops@),
            sync_acc(v, c0).ok,
            ""@ == Seq::<char>::empty(),
            out@ == base + sync_acc(v.take(i as int), c0).text,
            shift as int == sync_acc(v.take(i as int), c0).shift,
            *cnt as int == sync_acc(v.take(i as int), c0).cnt,
            sync_acc(v.take(i as int), c0).ok,
            in_i16(shift as int),
        decreases ops@.len() - i,
    {
        let ghost st = sync_acc(v.take(i as int), c0);
        let ghost next = sync_step(st, v[i as int]);
        proof {
            lemma_take_last(v, i as int);
            assert(sync_acc(v.take(i + 1), c0) == next);
            lemma_sync_prefix_ok(v, c0, i + 1);
            lemma_sync_step_ok(st, v[i as int]);
        }
        assert(v[i as int] == crate::semantics::op_view(ops@[i as int]));
        match &ops[i] {
            BfOp::Loop(body) => {
                if shift != 0 {
                    emit_move_ptr(out, shift);
                    shift = 0;
                }
                let ghost f = out@;
                let n = *cnt;
                *cnt = *cnt + 1;
                emit_loop_open(out, "", n);
                sync_ops_wat(body, out, cnt);
                emit_loop_close(out, "", n);
                proof {
                    let fs = settle(st);
                    let o = loop_open_text(Seq::empty(), n as int);
                    let b = sync_text(ops_view(body@), n + 1).text;
                    let c = loop_close_text(Seq::empty(), n as int);
                    if st.shift != 0 {
                        lemma_app(base, st.text, move_ptr_text(st.shift));
                    }
                    lemma_app(base, fs.text, o);
                    lemma_app(base, fs.text + o, b);
                    lemma_app(base, fs.text + o + b, c);
                }
            },
            op => {
                sync_simple_wat(op, out, &mut shift, Ghost(base), Ghost(st));
            },
        }
        i = i + 1;
    }
    assert(v.take(i as int) =~= v);
    if shift != 0 {
        emit_move_ptr(out, shift);
    }
    assert(out@ =~= base + sync_text(v, c0).text);
}

}

verus! {

/// The start of the module, up to the code of the program.
pub const MODULE_HEAD: &'static str = r#"
        (module
            (import "imports" "read_input_byte" (func $read_input_byte (result i32)))
            (import "imports" "write_output_byte" (func $write_output_byte (param i32)))
            (import "imports" "tape" (memory 1))
            (global $cell_ptr_global (mut i32) (i32.const 0))
            (global $async_start_block_global (mut i32) (i32.const 0))
            (export "cell_ptr" (global $cell_ptr_global))
            (func $run_bf (result i32) (local $cell_ptr i32) (local $async_start_block i32)  (local $tmp1 i32) (local $tmp2 i32)
                (local.set $cell_ptr (global.get $cell_ptr_global))
                (local.set $async_start_block (global.get $async_start_block_global))"#;

/// When resuming after input ran out, sets the current cell to 1 so that every
/// loop is entered until the input operation that stopped the run is reached;
/// that operation then stores the input, or puts the cell back if there is none.
pub const MODULE_RESUME: &'static str = r#"
                (block $if_rewinding
                    (br_if $if_rewinding (i32.eqz (local.get $async_start_block)))
                    (br_if $if_rewinding (i32.eq (local.get $async_start_block) (i32.const 2147483647)))
                    (local.set $tmp2 (i32.load8_u (local.get $cell_ptr)))
                    (i32.store8 (local.get $cell_ptr) (i32.const 1))
                )"#;

/// The end of the module, after the code of the program.
pub const MODULE_TAIL: &'static str = r#"
                (global.set $cell_ptr_global (local.get $cell_ptr))
                (global.set $async_start_block_global (i32.const 2147483647))
                (return (i32.const 0)))
            (export "run_bf" (func $run_bf))
        )"#;

/// Opens the block of piece `c`, which is skipped while resuming to a later piece.
pub open spec fn block_open_text(id: int, c: int) -> Seq<char> {
    "(block $async_block_"@ + decimal_text(id as nat) + "\n(br_if $async_block_"@ + decimal_text(id as nat)
        + " (i32.gt_u (local.get $async_start_block) (i32.const "@ + decimal_text(c as nat) + ")))\n"@
}

/// Reads a byte; without input, saves where to resume (piece `c`) and returns 1.
pub open spec fn input_text(id: int, c: int) -> Seq<char> {
    "(block $async_block_"@ + decimal_text(id as nat)
        + "_inner\n(global.set $cell_ptr_global (local.get $cell_ptr))\n(local.set $tmp1 (call $read_input_byte))\n(br_if $async_block_"@
        + decimal_text(id as nat)
        + "_inner (i32.ne (i32.const 0) (local.get $tmp1)))\n(global.set $cell_ptr_global (local.get $cell_ptr))\n(global.set $async_start_block_global (i32.const "@
        + decimal_text(c as nat)
        + "))\n(block $restore_cell\n(br_if $restore_cell (i32.eqz (local.get $async_start_block)))(i32.store8 (local.get $cell_ptr) (local.get $tmp2)))\n(return (i32.const 1))\n)\n(i32.store8 (local.get $cell_ptr) (local.get $tmp1))\n(local.set $async_start_block (i32.const 0))\n"@
}

/// The text of the pieces so far, the next block number, and whether nothing overflowed.
pub struct AsyncWat {
    pub text: Seq<char>,
    pub cnt: int,
    pub ok: bool,
}

pub open spec fn async_step(st: AsyncWat, op: AOp) -> AsyncWat
    decreases op, 0nat,
{
    let id = st.cnt;
    let head = st.text + block_open_text(id, op.counter);
    match op.kind {
        AKind::Sync(ops) => {
            let s = sync_text(ops, id + 1);
            AsyncWat { text: head + s.text + ")\n"@, cnt: s.cnt, ok: st.ok && id < usize::MAX && s.ok }
        },
        AKind::In => AsyncWat {
            text: head + input_text(id, op.counter) + ")\n"@,
            cnt: id + 1,
            ok: st.ok && id < usize::MAX,
        },
        AKind::ALoop(inner) => {
            let r = async_text(inner, id + 2);
            AsyncWat {
                text: head + loop_open_text("async_"@, id + 1) + r.text + loop_close_text("async_"@, id + 1) + ")\n"@,
                cnt: r.cnt,
                ok: st.ok && id + 1 < usize::MAX && r.ok,
            }
        },
    }
}

pub open spec fn async_acc(ops: Seq<AOp>, g: int) -> AsyncWat
    decreases ops, 1nat,
{
    if ops.len() == 0 {
        AsyncWat { text: Seq::empty(), cnt: g, ok: true }
    } else {
        async_step(async_acc(ops.drop_last(), g), ops.last())
    }
}

/// The text of the pieces, blocks and loops numbered from `g`.
pub open spec fn async_text(ops: Seq<AOp>, g: int) -> AsyncWat
    decreases ops, 2nat,
{
    async_acc(ops, g)
}

/// The whole module for the pieces of a program.
pub open spec fn wat_module(pieces: Seq<AOp>) -> Seq<char> {
    MODULE_HEAD@ + MODULE_RESUME@ + async_text(pieces, 0).text + MODULE_TAIL@
}

/// What is compiled: the program, or its optimized form.
pub open spec fn compiled_ops(ops: Seq<Op>, optimize_first: bool) -> Seq<Op> {
    if optimize_first { optimize(ops).unwrap() } else { ops }
}

/// The program can be compiled: the optimizer accepts it where it is asked for,
/// counters fit in `usize`, and every pointer offset fits in `i16`.
pub open spec fn wasm_ok(ops: Seq<Op>, optimize_first: bool) -> bool {
    &&& optimize_first ==> optimize(ops) is Some
    &&& 1 + anodes(arec(compiled_ops(ops, optimize_first))) < usize::MAX
    &&& async_text(asyncify_spec(compiled_ops(ops, optimize_first)), 0).ok
}

/// The WebAssembly text of a program.
pub open spec fn wat_program(ops: Seq<Op>, optimize_first: bool) -> Seq<char> {
    wat_module(asyncify_spec(compiled_ops(ops, optimize_first)))
}

proof fn lemma_async_step_ok(st: AsyncWat, op: AOp)
    ensures async_step(st, op).ok ==> st.ok,
{
}

proof fn lemma_async_prefix_ok(ops: Seq<AOp>, g: int, i: int)
    requires
        0 <= i <= ops.len(),
        async_acc(ops, g).ok,
    ensures async_acc(ops.take(i), g).ok,
    decreases ops.len(),
{
    if i == ops.len() {
        assert(ops.take(i) =~= ops);
    } else {
        lemma_async_step_ok(async_acc(ops.drop_last(), g), ops.last());
        assert(ops.drop_last().take(i) =~= ops.take(i));
        lemma_async_prefix_ok(ops.drop_last(), g, i);
    }
}

fn emit_block_open(out: &mut String, id: usize, c: usize)
    ensures final(out)@ == old(out)@ + block_open_text(id as int, c as int),
{
    let ghost base = out@;
    push_str(out, "(block $async_block_");
    push_decimal_text(out, id as u64);
    push_str(out, "\n(br_if $async_block_");
    push_decimal_text(out, id as u64);
    push_str(out, " (i32.gt_u (local.get $async_start_block) (i32.const ");
    push_decimal_text(out, c as u64);
    push_str(out, ")))\n");
    assert(final(out)@ =~= base + block_open_text(id as int, c as int));
}

fn emit_input(out: &mut String, id: usize, c: usize)
    ensures final(out)@ == old(out)@ + input_text(id as int, c as int),
{
    let ghost base = out@;
    push_str(out, "(block $async_block_");
    push_decimal_text(out, id as u64);
    push_str(out, "_inner\n(global.set $cell_ptr_global (local.get $cell_ptr))\n(local.set $tmp1 (call $read_input_byte))\n(br_if $async_block_");
    push_decimal_text(out, id as u64);
    push_str(out, "_inner (i32.ne (i32.const 0) (local.get $tmp1)))\n(global.set $cell_ptr_global (local.get $cell_ptr))\n(global.set $async_start_block_global (i32.const ");
    push_decimal_text(out, c as u64);
    push_str(out, "))\n(block $restore_cell\n(br_if $restore_cell (i32.eqz (local.get $async_start_block)))(i32.store8 (local.get $cell_ptr) (local.get $tmp2)))\n(return (i32.const 1))\n)\n(i32.store8 (local.get $cell_ptr) (local.get $tmp1))\n(local.set $async_start_block (i32.const 0))\n");
    assert(final(out)@ =~= base + input_text(id as int, c as int));
}

/// Writes the text of one piece; blocks and loops are numbered from `*g`.
fn async_op_wat(op: &AsyncifiedOp, out: &mut String, g: &mut usize)
    requires async_step(AsyncWat { text: Seq::empty(), cnt: *old(g) as int, ok: true }, aop_view(*op)).ok,
    ensures
        final(out)@ == old(out)@ + async_step(AsyncWat { text: Seq::empty(), cnt: *old(g) as int, ok: true }, aop_view(*op)).text,
        *final(g) == async_step(AsyncWat { text: Seq::empty(), cnt: *old(g) as int, ok: true }, aop_view(*op)).cnt,
    decreases op,
{
    let ghost base = out@;
    let id = *g;
    *g = *g + 1;
    emit_block_open(out, id, op.counter);
    let ghost h = block_open_text(id as int, op.counter as int);
    proof { assert(Seq::<char>::empty() + h =~= h); }
    match &op.kind {
        AsyncifiedOpKind::SyncBlock(b) => {
            sync_ops_wat(b, out, g);
            let ghost s = sync_text(ops_view(b@), id + 1).text;
            push_str(out, ")\n");
            proof {
                lemma_app(base, h, s);
                lemma_app(base, h + s, ")\n"@);
            }
        },
        AsyncifiedOpKind::In => {
            emit_input(out, id, op.counter);
            push_str(out, ")\n");
            proof {
                lemma_app(base, h, input_text(id as int, op.counter as int));
                lemma_app(base, h + input_text(id as int, op.counter as int), ")\n"@);
            }
        },
        AsyncifiedOpKind::AsyncLoop(inner) => {
            let lid = *g;
            *g = *g + 1;
            emit_loop_open(out, "async_", lid);
            async_ops_wat(inner, out, g);
            emit_loop_close(out, "async_", lid);
            push_str(out, ")\n");
            proof {
                let r = async_text(aops_view(inner@), id + 2).text;
                let lo = loop_open_text("async_"@, id + 1);
                let lc = loop_close_text("async_"@, id + 1);
                lemma_app(base, h, lo);
                lemma_app(base, h + lo, r);
                lemma_app(base, h + lo + r, lc);
                lemma_app(base, h + lo + r + lc, ")\n"@);
            }
        },
    }
}

proof fn lemma_async_step_text(st: AsyncWat, op: AOp)
    ensures
        async_step(st, op).text == st.text + async_step(AsyncWat { text: Seq::empty(), cnt: st.cnt, ok: true }, op).text,
        async_step(st, op).cnt == async_step(AsyncWat { text: Seq::empty(), cnt: st.cnt, ok: true }, op).cnt,
        async_step(st, op).ok == (st.ok && async_step(AsyncWat { text: Seq::empty(), cnt: st.cnt, ok: true }, op).ok),
{
    let e = AsyncWat { text: Seq::empty(), cnt: st.cnt, ok: true };
    let h = block_open_text(st.cnt, op.counter);
    match op.kind {
        AKind::Sync(ops) => {
            let s = sync_text(ops, st.cnt + 1);
            assert(st.text + h + s.text + ")\n"@ =~= st.text + (e.text + h + s.text + ")\n"@));
        },
        AKind::In => {
            assert(st.text + h + input_text(st.cnt, op.counter) + ")\n"@ =~= st.text + (e.text + h + input_text(st.cnt, op.counter) + ")\n"@));
        },
        AKind::ALoop(inner) => {
            let r = async_text(inner, st.cnt + 2);
            let o = loop_open_text("async_"@, st.cnt + 1);
            let c = loop_close_text("async_"@, st.cnt + 1);
            assert(st.text + h + o + r.text + c + ")\n"@ =~= st.text + (e.text + h + o + r.text + c + ")\n"@));
        },
    }
}

/// Writes the text of the pieces; blocks and loops are numbered from `*g`.
fn async_ops_wat(ops: &Vec<AsyncifiedOp>, out: &mut String, g: &mut usize)
    requires async_text(aops_view(ops@), *old(g) as int).ok,
    ensures
        final(out)@ == old(out)@ + async_text(aops_view(ops@), *old(g) as int).text,
        *final(g) == async_text(aops_view(ops@), *old(g) as int).cnt,
    decreases ops,
{
    let ghost v = aops_view(ops@);
    let ghost g0 = *g as int;
    let ghost base = out@;
    let mut i: usize = 0;
    proof {
        lemma_aops_view(ops@);
        assert(v.take(0) =~= Seq::<AOp>::empty());
        assert(out@ =~= base + Seq::<char>::empty());
    }
    while i < ops.len()
        invariant
            0 <= i <= ops@.len(),
            v == aops_view(ops@),
            v.len() == ops@.len(),
            forall|j: int| 0 <= j < ops@.len() ==> #[trigger] v[j] == aop_view(ops@[j]),
            async_acc(v, g0).ok,
            out@ == base + async_acc(v.take(i as int), g0).text,
            *g as int == async_acc(v.take(i as int), g0).cnt,
            async_acc(v.take(i as int), g0).ok,
        decreases ops@.len() - i,
    {
        let ghost st = async_acc(v.take(i as int), g0);
        let ghost next = async_step(st, v[i as int]);
        proof {
            lemma_take_last(v, i as int);
            assert(async_acc(v.take(i + 1), g0) == next);
            lemma_async_prefix_ok(v, g0, i + 1);
            lemma_async_step_text(st, v[i as int]);
        }
        let ghost o = out@;
        async_op_wat(&ops[i], out, g);
        proof { lemma_app(base, st.text, out@.skip(o.len() as int)); }
        assert(out@ =~= base + next.text);
        i = i + 1;
    }
    assert(v.take(i as int) =~= v);
}

/// The WebAssembly text of a Brainfuck program (optimized first if asked):
/// a module that imports `read_input_byte`, `write_output_byte` and the tape,
/// and exports `run_bf` and `cell_ptr`. `run_bf` returns 1 when it needs input
/// that is not there yet, and resumes at that input operation when called again;
/// it returns 0 when the program has ended.
pub fn bf2wat(bf_ops: &Vec<BfOp>, optimize_first: bool) -> (r: String)
    requires wasm_ok(ops_view(bf_ops@), optimize_first),
    ensures r@ == wat_program(ops_view(bf_ops@), optimize_first),
{
    let pieces = if optimize_first {
        let optimized = crate::bf::get_optimized_bf_ops(bf_ops);
        asyncify(&optimized)
    } else {
        asyncify(bf_ops)
    };
    let mut wat = String::new();
    push_str(&mut wat, MODULE_HEAD);
    push_str(&mut wat, MODULE_RESUME);
    let mut g: usize = 0;
    async_ops_wat(&pieces, &mut wat, &mut g);
    push_str(&mut wat, MODULE_TAIL);
    wat
}

}
verus! {

/// `wat::Error`, the error that the WebAssembly text parser reports.
#[verifier::external_type_specification]
#[verifier::external_body]
pub struct ExWatError(wat::Error);

/// The binary module that `wat::parse_str` makes of a text, or `None` where it
/// reports an error.
pub uninterp spec fn wat_binary(text: Seq<char>) -> Option<Seq<u8>>;

/// Calls `wat::parse_str`, which parses WebAssembly text and encodes the module
/// in the binary format. Its result depends on the text alone (the crate is
/// built without its component-model feature, the one part of it that reads an
/// environment variable); the contract names that result `wat_binary` and says
/// nothing of which texts are accepted or of the bytes themselves.
#[verifier::external_body]
fn parse_wat(text: &str) -> (r: Result<Vec<u8>, wat::Error>)
    ensures
        match r {
            Ok(b) => wat_binary(text@) == Some(b@),
            Err(_) => wat_binary(text@) is None,
        },
{
    wat::parse_str(text)
}

/// Why a program could not be turned into a WebAssembly module.
pub enum Bf2WasmError {
    /// The text parser refused the generated text.
    Wat(wat::Error),
}

/// The outcome of compiling, from what the text parser returned: the module,
/// or the parser's error.
pub fn wasm_outcome(parsed: Result<Vec<u8>, wat::Error>) -> (r: Result<Vec<u8>, Bf2WasmError>)
    ensures
        match parsed {
            Ok(b) => r is Ok && r->Ok_0@ == b@,
            Err(_) => r is Err,
        },
{
    match parsed {
        Ok(b) => Ok(b),
        Err(e) => Err(Bf2WasmError::Wat(e)),
    }
}

/// Compiles a Brainfuck program (optimized first if asked) to a WebAssembly
/// module in the binary format: the text of `bf2wat`, encoded by the `wat` crate.
pub fn bf2wasm(bf_ops: Vec<BfOp>, optimize_first: bool) -> (r: Result<Vec<u8>, Bf2WasmError>)
    requires wasm_ok(ops_view(bf_ops@), optimize_first),
    ensures
        match r {
            Ok(b) => wat_binary(wat_program(ops_view(bf_ops@), optimize_first)) == Some(b@),
            Err(_) => wat_binary(wat_program(ops_view(bf_ops@), optimize_first)) is None,
        },
{
    let text = bf2wat(&bf_ops, optimize_first);
    wasm_outcome(parse_wat(text.as_str()))
}

}
verus! {

// ---------------------------------------------------------------------------
// What the emitted statements do, read as WebAssembly.
// ---------------------------------------------------------------------------

/// An expression of the emitted code: a cell at an offset from `$cell_ptr`,
/// the local `$tmp1`, a constant, or a sum.
pub enum WExpr {
    Load(int),
    Tmp,
    Const(int),
    Add(Box<WExpr>, Box<WExpr>),
}

/// A statement of the emitted code that touches cells, the cell pointer or
/// the output: setting `$tmp1`, storing a byte at an offset from `$cell_ptr`,
/// moving `$cell_ptr`, or writing the byte at `$cell_ptr` out.
pub enum WStmt {
    SetTmp(WExpr),
    Store(int, WExpr),
    MovePtr(int),
    Out,
}

pub open spec fn wexpr_text(e: WExpr) -> Seq<char>
    decreases e,
{
    match e {
        WExpr::Load(o) => load_text(o),
        WExpr::Tmp => "(local.get $tmp1)"@,
        WExpr::Const(v) => const_text(v),
        WExpr::Add(a, b) => add_text(wexpr_text(*a), wexpr_text(*b)),
    }
}

pub open spec fn wstmt_text(s: WStmt) -> Seq<char> {
    match s {
        WStmt::SetTmp(e) => "(local.set $tmp1 "@ + wexpr_text(e) + ")\n"@,
        WStmt::Store(o, e) => store_text(o, wexpr_text(e)),
        WStmt::MovePtr(n) => move_ptr_text(n),
        WStmt::Out => out_text(),
    }
}

pub open spec fn wstmts_text(w: Seq<WStmt>) -> Seq<char>
    decreases w.len(),
{
    if w.len() == 0 {
        Seq::empty()
    } else {
        wstmt_text(w[0]) + wstmts_text(w.drop_first())
    }
}

/// The memory the statements run on: the cells, the value of `$cell_ptr`, the
/// value of `$tmp1` (an i32, as a number in `0..2^32`), and the bytes written
/// out so far.
pub struct WMem {
    pub cells: Seq<u8>,
    pub ptr: int,
    pub tmp: int,
    pub output: Seq<u8>,
}

/// An i32 result, as a number in `0..2^32`.
pub open spec fn i32_wrap(v: int) -> int {
    v % 0x1_0000_0000
}

/// The value of an expression: `i32.load8_u` reads a byte, `i32.add` wraps.
pub open spec fn wexpr_val(e: WExpr, m: WMem) -> int
    decreases e,
{
    match e {
        WExpr::Load(o) => m.cells[m.ptr + o] as int,
        WExpr::Tmp => m.tmp,
        WExpr::Const(v) => i32_wrap(v),
        WExpr::Add(a, b) => i32_wrap(wexpr_val(*a, m) + wexpr_val(*b, m)),
    }
}

/// One statement: `i32.store8` keeps the low byte of the value.
pub open spec fn wstmt_run(s: WStmt, m: WMem) -> WMem {
    match s {
        WStmt::SetTmp(e) => WMem { tmp: wexpr_val(e, m), ..m },
        WStmt::Store(o, e) => WMem { cells: m.cells.update(m.ptr + o, (wexpr_val(e, m) % 256) as u8), ..m },
        WStmt::MovePtr(n) => WMem { ptr: m.ptr + n, ..m },
        WStmt::Out => WMem { output: m.output.push(m.cells[m.ptr]), ..m },
    }
}

pub open spec fn wstmts_run(w: Seq<WStmt>, m: WMem) -> WMem
    decreases w.len(),
{
    if w.len() == 0 {
        m
    } else {
        wstmts_run(w.drop_first(), wstmt_run(w[0], m))
    }
}

/// The WebAssembly emitted for a two-target move does what the move does. Its
/// text is that of statements which, run on any tape where the cells they touch
/// exist (the cell pointer standing the pending offset before the Brainfuck
/// pointer), leave the tape that the Brainfuck step leaves: both targets gain
/// the source cell, and the source becomes 0.
#[verifier::spinoff_prover]
#[verifier::rlimit(40)]
pub proof fn lemma_move_add2_wat_runs(st: SyncWat, s1: int, s2: int) -> (w: Seq<WStmt>)
    requires
        sync_step(st, Op::MoveAdd2(s1, s2)).ok,
    ensures
        ({
            let a = assure(st, min_of(0, min_of(s1, s2)));
            let r = sync_step(st, Op::MoveAdd2(s1, s2));
            &&& r.text == a.text + wstmts_text(w)
            &&& r.shift == a.shift
            &&& forall|m: Machine, tracks: Option<nat>, t: int|
                #![trigger step(Op::MoveAdd2(s1, s2), m, tracks), wstmts_run(w, WMem { cells: m.cells, ptr: m.ptr - a.shift, tmp: t, output: m.output })]
                0 <= m.ptr < m.cells.len() < usize::MAX && 0 <= m.ptr + s1 < m.cells.len() && 0 <= m.ptr + s2 < m.cells.len()
                    ==> step(Op::MoveAdd2(s1, s2), m, tracks).1 is None
                        && wstmts_run(w, WMem { cells: m.cells, ptr: m.ptr - a.shift, tmp: t, output: m.output }).cells
                            == step(Op::MoveAdd2(s1, s2), m, tracks).0.cells
                        && wstmts_run(w, WMem { cells: m.cells, ptr: m.ptr - a.shift, tmp: t, output: m.output }).ptr == m.ptr - a.shift
                        && wstmts_run(w, WMem { cells: m.cells, ptr: m.ptr - a.shift, tmp: t, output: m.output }).output == m.output
        }),
{
    let a = assure(st, min_of(0, min_of(s1, s2)));
    let o = a.shift;
    let t1 = o + s1;
    let t2 = o + s2;
    let e1 = WExpr::Add(Box::new(WExpr::Load(t1)), Box::new(WExpr::Tmp));
    let e2 = WExpr::Add(Box::new(WExpr::Load(t2)), Box::new(WExpr::Tmp));
    let w = seq![
        WStmt::SetTmp(WExpr::Load(o)),
        WStmt::Store(t1, e1),
        WStmt::Store(t2, e2),
        WStmt::Store(o, WExpr::Const(0)),
    ];
    reveal_with_fuel(wstmts_text, 5);
    reveal_with_fuel(wexpr_text, 2);
    assert(w.drop_first().drop_first().drop_first().drop_first() =~= Seq::<WStmt>::empty());
    let p1 = tmp_text(o);
    let p2 = store_text(t1, add_text(load_text(t1), "(local.get $tmp1)"@));
    let p3 = store_text(t2, add_text(load_text(t2), "(local.get $tmp1)"@));
    let p4 = store_text(o, const_text(0));
    assert(wstmt_text(w[0]) == p1);
    assert(wstmt_text(w[1]) == p2);
    assert(wstmt_text(w[2]) == p3);
    assert(wstmt_text(w[3]) == p4);
    assert(wstmts_text(w) =~= p1 + p2 + p3 + p4) by {
        assert(w.drop_first()[0] == w[1]);
        assert(w.drop_first().drop_first()[0] == w[2]);
        assert(w.drop_first().drop_first().drop_first()[0] == w[3]);
        assert(wstmts_text(w.drop_first().drop_first().drop_first()) =~= p4);
    }
    assert(sync_step(st, Op::MoveAdd2(s1, s2)).text =~= a.text + wstmts_text(w));
    assert forall|m: Machine, tracks: Option<nat>, t: int|
        0 <= m.ptr < m.cells.len() < usize::MAX && 0 <= m.ptr + s1 < m.cells.len() && 0 <= m.ptr + s2 < m.cells.len()
        implies #[trigger] step(Op::MoveAdd2(s1, s2), m, tracks).1 is None
            && #[trigger] wstmts_run(w, WMem { cells: m.cells, ptr: m.ptr - o, tmp: t, output: m.output }).cells
                == step(Op::MoveAdd2(s1, s2), m, tracks).0.cells
            && wstmts_run(w, WMem { cells: m.cells, ptr: m.ptr - o, tmp: t, output: m.output }).ptr == m.ptr - o
            && wstmts_run(w, WMem { cells: m.cells, ptr: m.ptr - o, tmp: t, output: m.output }).output == m.output by {
        lemma_move_add2_run_machine(w, o, s1, s2, m, tracks, t);
    }
    w
}

#[verifier::spinoff_prover]
proof fn lemma_move_add2_run_machine(w: Seq<WStmt>, o: int, s1: int, s2: int, m: Machine, tracks: Option<nat>, t: int)
    requires
        s1 != 0,
        s2 != 0,
        0 <= m.ptr < m.cells.len() < usize::MAX,
        0 <= m.ptr + s1 < m.cells.len(),
        0 <= m.ptr + s2 < m.cells.len(),
        w == seq![
            WStmt::SetTmp(WExpr::Load(o)),
            WStmt::Store(o + s1, WExpr::Add(Box::new(WExpr::Load(o + s1)), Box::new(WExpr::Tmp))),
            WStmt::Store(o + s2, WExpr::Add(Box::new(WExpr::Load(o + s2)), Box::new(WExpr::Tmp))),
            WStmt::Store(o, WExpr::Const(0)),
        ],
    ensures
        step(Op::MoveAdd2(s1, s2), m, tracks).1 is None,
        wstmts_run(w, WMem { cells: m.cells, ptr: m.ptr - o, tmp: t, output: m.output }).cells == step(Op::MoveAdd2(s1, s2), m, tracks).0.cells,
        wstmts_run(w, WMem { cells: m.cells, ptr: m.ptr - o, tmp: t, output: m.output }).ptr == m.ptr - o,
        wstmts_run(w, WMem { cells: m.cells, ptr: m.ptr - o, tmp: t, output: m.output }).output == m.output,
{
    let c = m.cells;
    let p = m.ptr;
    let m0 = WMem { cells: c, ptr: p - o, tmp: t, output: m.output };
    reveal_with_fuel(wexpr_val, 2);
    let w1 = wstmt_run(w[0], m0);
    assert(w1.tmp == c[p] as int);
    let v1 = (c[p + s1] + c[p]) % 256;
    let w2 = wstmt_run(w[1], w1);
    assert(i32_wrap(c[p + s1] + c[p]) == c[p + s1] + c[p]);
    assert(w2.cells == c.update(p + s1, v1 as u8));
    let c2 = c.update(p + s1, v1 as u8);
    let v2 = (c2[p + s2] + c[p]) % 256;
    let w3 = wstmt_run(w[2], w2);
    assert(i32_wrap(c2[p + s2] + c[p]) == c2[p + s2] + c[p]);
    assert(w3.cells == c2.update(p + s2, v2 as u8));
    let w4 = wstmt_run(w[3], w3);
    assert(w4.cells == c2.update(p + s2, v2 as u8).update(p, 0u8));
    reveal_with_fuel(wstmts_run, 5);
    assert(w.drop_first()[0] == w[1]);
    assert(w.drop_first().drop_first()[0] == w[2]);
    assert(w.drop_first().drop_first().drop_first()[0] == w[3]);
    assert(w.drop_first().drop_first().drop_first().drop_first() =~= Seq::<WStmt>::empty());
    assert(wstmts_run(w, m0) == w4);
    // The Brainfuck step.
    assert(crate::semantics::grow(c, p + s1) == c);
    let m1 = crate::semantics::add_current_to(m, s1).unwrap();
    assert(m1.cells == c.update(p + s1, v1 as u8));
    assert(m1.ptr == p);
    assert(crate::semantics::grow(m1.cells, p + s2) == m1.cells);
    let m2 = crate::semantics::add_current_to(m1, s2).unwrap();
    assert(m1.cells[p] == c[p]);
    assert(m2.cells == c2.update(p + s2, v2 as u8));
}

proof fn lemma_wstmts_text_add(a: Seq<WStmt>, b: Seq<WStmt>)
    ensures wstmts_text(a + b) == wstmts_text(a) + wstmts_text(b),
    decreases a.len(),
{
    if a.len() == 0 {
        assert(a + b =~= b);
        assert(Seq::<char>::empty() + wstmts_text(b) =~= wstmts_text(b));
    } else {
        assert((a + b)[0] == a[0]);
        assert((a + b).drop_first() =~= a.drop_first() + b);
        lemma_wstmts_text_add(a.drop_first(), b);
        assert(wstmt_text(a[0]) + (wstmts_text(a.drop_first()) + wstmts_text(b))
            =~= (wstmt_text(a[0]) + wstmts_text(a.drop_first())) + wstmts_text(b));
    }
}

proof fn lemma_wstmts_run_add(a: Seq<WStmt>, b: Seq<WStmt>, m: WMem)
    ensures wstmts_run(a + b, m) == wstmts_run(b, wstmts_run(a, m)),
    decreases a.len(),
{
    if a.len() == 0 {
        assert(a + b =~= b);
    } else {
        assert((a + b)[0] == a[0]);
        assert((a + b).drop_first() =~= a.drop_first() + b);
        lemma_wstmts_run_add(a.drop_first(), b, wstmt_run(a[0], m));
    }
}

/// What `assure` adds is a move of the cell pointer, or nothing; after it the
/// cell pointer stands the new pending offset before the same place.
proof fn lemma_assure_stmts(st: SyncWat, min: int) -> (w0: Seq<WStmt>)
    ensures
        assure(st, min).text == st.text + wstmts_text(w0),
        assure(st, min).shift + min >= 0 || assure(st, min) == st,
        forall|mm: WMem| #[trigger] wstmts_run(w0, mm) == (WMem { ptr: mm.ptr + st.shift - assure(st, min).shift, ..mm }),
{
    reveal_with_fuel(wstmts_text, 2);
    reveal_with_fuel(wstmts_run, 2);
    if st.shift + min < 0 {
        let w0 = seq![WStmt::MovePtr(st.shift + min)];
        assert(w0.drop_first() =~= Seq::<WStmt>::empty());
        assert(wstmts_text(w0) =~= move_ptr_text(st.shift + min));
        w0
    } else {
        assert(st.text + wstmts_text(Seq::<WStmt>::empty()) =~= st.text);
        Seq::<WStmt>::empty()
    }
}

/// The operations whose WebAssembly a block emits in place: cell changes,
/// pointer moves, output and comments.
pub open spec fn wasm_cell_op(op: Op) -> bool {
    match op {
        Op::Inc | Op::Dec | Op::Clr | Op::Add(_) | Op::MoveAdd(_) | Op::MoveAdd2(_, _) => true,
        Op::Left | Op::Right | Op::Shift(_) | Op::Comment(_) | Op::Out => true,
        _ => false,
    }
}

/// The cells that a step of `op` reads or writes exist on the tape, and the
/// pointer stays on it.
pub open spec fn op_on_tape(op: Op, m: Machine) -> bool {
    let p = m.ptr;
    let n = m.cells.len();
    &&& 0 <= p < n < usize::MAX
    &&& match op {
        Op::MoveAdd(s) => 0 <= p + s < n,
        Op::MoveAdd2(s1, s2) => 0 <= p + s1 < n && 0 <= p + s2 < n,
        Op::Left => p >= 1,
        Op::Right => p + 1 < n,
        Op::Shift(s) => 0 <= p + s < n,
        _ => true,
    }
}

#[verifier::spinoff_prover]
proof fn lemma_store_add_const(mm: WMem, o: int, k: int, v: u8)
    requires
        0 <= mm.ptr + o < mm.cells.len(),
        k == v as int || (k == -1 && v == 255),
    ensures
        wstmt_run(WStmt::Store(o, WExpr::Add(Box::new(WExpr::Load(o)), Box::new(WExpr::Const(k)))), mm).cells
            == mm.cells.update(mm.ptr + o, crate::semantics::wadd(mm.cells[mm.ptr + o], v)),
{
    reveal_with_fuel(wexpr_val, 2);
    let c = mm.cells[mm.ptr + o] as int;
    let e = WExpr::Add(Box::new(WExpr::Load(o)), Box::new(WExpr::Const(k)));
    assert(wexpr_val(e, mm) == i32_wrap(c + i32_wrap(k)));
    if k == -1 {
        assert(i32_wrap(k) == 0xffff_ffff);
        if c == 0 {
            assert(i32_wrap(c + 0xffff_ffff) == 0xffff_ffff);
        } else {
            assert(i32_wrap(c + 0xffff_ffff) == c - 1);
        }
        assert(i32_wrap(c + i32_wrap(k)) % 256 == (c + 255) % 256);
    } else {
        assert(i32_wrap(k) == k);
        assert(i32_wrap(c + k) == c + k);
    }
}

/// The WebAssembly of a block follows the Brainfuck step by step. For each
/// cell change, pointer move or output, the text that `sync_step` adds is that
/// of statements which, run with the cell pointer standing the pending offset
/// before the Brainfuck pointer, leave the tape and the output that the
/// Brainfuck step leaves (on any tape where the cells it touches exist), with
/// the cell pointer then standing the new pending offset before the new
/// Brainfuck pointer.
pub proof fn lemma_sync_step_wat_runs(st: SyncWat, op: Op) -> (w: Seq<WStmt>)
    requires
        wasm_cell_op(op),
        sync_step(st, op).ok,
    ensures
        sync_step(st, op).text == st.text + wstmts_text(w),
        (forall|m: Machine, tracks: Option<nat>, t: int|
            #![trigger step(op, m, tracks), wstmts_run(w, WMem { cells: m.cells, ptr: m.ptr - st.shift, tmp: t, output: m.output })]
            op_on_tape(op, m) ==> {
                &&& step(op, m, tracks).1 is None
                &&& wstmts_run(w, WMem { cells: m.cells, ptr: m.ptr - st.shift, tmp: t, output: m.output }).cells == step(op, m, tracks).0.cells
                &&& wstmts_run(w, WMem { cells: m.cells, ptr: m.ptr - st.shift, tmp: t, output: m.output }).ptr
                    == step(op, m, tracks).0.ptr - sync_step(st, op).shift
                &&& wstmts_run(w, WMem { cells: m.cells, ptr: m.ptr - st.shift, tmp: t, output: m.output }).output
                    == step(op, m, tracks).0.output
            }),
{
    match op {
        Op::Left | Op::Right | Op::Shift(_) | Op::Comment(_) => lemma_sync_moves_wat(st, op),
        Op::MoveAdd2(_, _) => lemma_sync_move_add2_wat(st, op),
        Op::Out => lemma_sync_out_wat(st, op),
        _ => lemma_sync_step_wat_cells(st, op),
    }
}

#[verifier::spinoff_prover]
proof fn lemma_sync_moves_wat(st: SyncWat, op: Op) -> (w: Seq<WStmt>)
    requires
        op is Left || op is Right || op is Shift || op is Comment,
        sync_step(st, op).ok,
    ensures
        sync_step(st, op).text == st.text + wstmts_text(w),
        (forall|m: Machine, tracks: Option<nat>, t: int|
            #![trigger step(op, m, tracks), wstmts_run(w, WMem { cells: m.cells, ptr: m.ptr - st.shift, tmp: t, output: m.output })]
            op_on_tape(op, m) ==> {
                &&& step(op, m, tracks).1 is None
                &&& wstmts_run(w, WMem { cells: m.cells, ptr: m.ptr - st.shift, tmp: t, output: m.output }).cells == step(op, m, tracks).0.cells
                &&& wstmts_run(w, WMem { cells: m.cells, ptr: m.ptr - st.shift, tmp: t, output: m.output }).ptr
                    == step(op, m, tracks).0.ptr - sync_step(st, op).shift
                &&& wstmts_run(w, WMem { cells: m.cells, ptr: m.ptr - st.shift, tmp: t, output: m.output }).output
                    == step(op, m, tracks).0.output
            }),
{
    reveal_with_fuel(wstmts_run, 2);
    let r = sync_step(st, op);
    let w = Seq::<WStmt>::empty();
    assert(r.text =~= st.text + wstmts_text(w));
    assert forall|m: Machine, tracks: Option<nat>, t: int|
        op_on_tape(op, m) implies {
            &&& #[trigger] step(op, m, tracks).1 is None
            &&& #[trigger] wstmts_run(w, WMem { cells: m.cells, ptr: m.ptr - st.shift, tmp: t, output: m.output }).cells == step(op, m, tracks).0.cells
            &&& wstmts_run(w, WMem { cells: m.cells, ptr: m.ptr - st.shift, tmp: t, output: m.output }).ptr == step(op, m, tracks).0.ptr - r.shift
            &&& wstmts_run(w, WMem { cells: m.cells, ptr: m.ptr - st.shift, tmp: t, output: m.output }).output == step(op, m, tracks).0.output
        } by {
        if op is Right {
            assert(crate::semantics::grow(m.cells, m.ptr + 1) == m.cells);
        }
        if let Op::Shift(s) = op {
            assert(crate::semantics::grow(m.cells, m.ptr + s) == m.cells);
        }
    }
    w
}

#[verifier::spinoff_prover]
proof fn lemma_sync_move_add2_wat(st: SyncWat, op: Op) -> (w: Seq<WStmt>)
    requires
        op is MoveAdd2,
        sync_step(st, op).ok,
    ensures
        sync_step(st, op).text == st.text + wstmts_text(w),
        (forall|m: Machine, tracks: Option<nat>, t: int|
            #![trigger step(op, m, tracks), wstmts_run(w, WMem { cells: m.cells, ptr: m.ptr - st.shift, tmp: t, output: m.output })]
            op_on_tape(op, m) ==> {
                &&& step(op, m, tracks).1 is None
                &&& wstmts_run(w, WMem { cells: m.cells, ptr: m.ptr - st.shift, tmp: t, output: m.output }).cells == step(op, m, tracks).0.cells
                &&& wstmts_run(w, WMem { cells: m.cells, ptr: m.ptr - st.shift, tmp: t, output: m.output }).ptr
                    == step(op, m, tracks).0.ptr - sync_step(st, op).shift
                &&& wstmts_run(w, WMem { cells: m.cells, ptr: m.ptr - st.shift, tmp: t, output: m.output }).output
                    == step(op, m, tracks).0.output
            }),
{
    let (s1, s2) = match op {
        Op::MoveAdd2(s1, s2) => (s1, s2),
        _ => (0, 0),
    };
    let r = sync_step(st, op);
    let a = assure(st, min_of(0, min_of(s1, s2)));
    let w0 = lemma_assure_stmts(st, min_of(0, min_of(s1, s2)));
    let w1 = lemma_move_add2_wat_runs(st, s1, s2);
    let w = w0 + w1;
    lemma_wstmts_text_add(w0, w1);
    assert(r.text =~= st.text + wstmts_text(w));
    assert forall|m: Machine, tracks: Option<nat>, t: int|
        op_on_tape(op, m) implies {
            &&& #[trigger] step(op, m, tracks).1 is None
            &&& #[trigger] wstmts_run(w, WMem { cells: m.cells, ptr: m.ptr - st.shift, tmp: t, output: m.output }).cells == step(op, m, tracks).0.cells
            &&& wstmts_run(w, WMem { cells: m.cells, ptr: m.ptr - st.shift, tmp: t, output: m.output }).ptr == step(op, m, tracks).0.ptr - r.shift
            &&& wstmts_run(w, WMem { cells: m.cells, ptr: m.ptr - st.shift, tmp: t, output: m.output }).output == step(op, m, tracks).0.output
        } by {
        let mm = WMem { cells: m.cells, ptr: m.ptr - st.shift, tmp: t, output: m.output };
        lemma_wstmts_run_add(w0, w1, mm);
        let mm1 = wstmts_run(w0, mm);
        assert(mm1 == WMem { cells: m.cells, ptr: m.ptr - a.shift, tmp: t, output: m.output });
        assert(step(op, m, tracks) == step(Op::MoveAdd2(s1, s2), m, tracks));
        assert(wstmts_run(w1, mm1).cells == step(Op::MoveAdd2(s1, s2), m, tracks).0.cells);
    }
    w
}

proof fn lemma_sync_out_wat(st: SyncWat, op: Op) -> (w: Seq<WStmt>)
    requires
        op is Out,
        sync_step(st, op).ok,
    ensures
        sync_step(st, op).text == st.text + wstmts_text(w),
        (forall|m: Machine, tracks: Option<nat>, t: int|
            #![trigger step(op, m, tracks), wstmts_run(w, WMem { cells: m.cells, ptr: m.ptr - st.shift, tmp: t, output: m.output })]
            op_on_tape(op, m) ==> {
                &&& step(op, m, tracks).1 is None
                &&& wstmts_run(w, WMem { cells: m.cells, ptr: m.ptr - st.shift, tmp: t, output: m.output }).cells == step(op, m, tracks).0.cells
                &&& wstmts_run(w, WMem { cells: m.cells, ptr: m.ptr - st.shift, tmp: t, output: m.output }).ptr
                    == step(op, m, tracks).0.ptr - sync_step(st, op).shift
                &&& wstmts_run(w, WMem { cells: m.cells, ptr: m.ptr - st.shift, tmp: t, output: m.output }).output
                    == step(op, m, tracks).0.output
            }),
{
    reveal_with_fuel(wstmts_text, 3);
    reveal_with_fuel(wstmts_run, 3);
    let r = sync_step(st, op);
    let w0 = if st.shift != 0 { seq![WStmt::MovePtr(st.shift)] } else { Seq::<WStmt>::empty() };
    let w1 = seq![WStmt::Out];
    let w = w0 + w1;
    assert(w1.drop_first() =~= Seq::<WStmt>::empty());
    assert(w0.len() > 0 ==> w0.drop_first() =~= Seq::<WStmt>::empty());
    assert(settle(st).text == st.text + wstmts_text(w0)) by {
        assert(settle(st).text =~= st.text + wstmts_text(w0));
    }
    lemma_wstmts_text_add(w0, w1);
    assert(r.text =~= st.text + wstmts_text(w));
    assert(r.shift == 0);
    assert forall|m: Machine, tracks: Option<nat>, t: int|
        #![trigger step(op, m, tracks), wstmts_run(w, WMem { cells: m.cells, ptr: m.ptr - st.shift, tmp: t, output: m.output })]
        op_on_tape(op, m) implies {
            &&& step(op, m, tracks).1 is None
            &&& wstmts_run(w, WMem { cells: m.cells, ptr: m.ptr - st.shift, tmp: t, output: m.output }).cells == step(op, m, tracks).0.cells
            &&& wstmts_run(w, WMem { cells: m.cells, ptr: m.ptr - st.shift, tmp: t, output: m.output }).ptr
                == step(op, m, tracks).0.ptr - sync_step(st, op).shift
            &&& wstmts_run(w, WMem { cells: m.cells, ptr: m.ptr - st.shift, tmp: t, output: m.output }).output
                == step(op, m, tracks).0.output
        } by {
        let mm = WMem { cells: m.cells, ptr: m.ptr - st.shift, tmp: t, output: m.output };
        lemma_wstmts_run_add(w0, w1, mm);
        let mm1 = wstmts_run(w0, mm);
        assert(mm1 == WMem { cells: m.cells, ptr: m.ptr, tmp: t, output: m.output });
        assert(wstmts_run(w1, mm1) == wstmt_run(WStmt::Out, mm1));
    }
    w
}

/// The statements of a cell change at offset `o` from the cell pointer.
spec fn cell_op_stmts(op: Op, o: int) -> Seq<WStmt> {
    match op {
        Op::Inc => seq![WStmt::Store(o, WExpr::Add(Box::new(WExpr::Load(o)), Box::new(WExpr::Const(1))))],
        Op::Dec => seq![WStmt::Store(o, WExpr::Add(Box::new(WExpr::Load(o)), Box::new(WExpr::Const(-1))))],
        Op::Add(v) => seq![WStmt::Store(o, WExpr::Add(Box::new(WExpr::Load(o)), Box::new(WExpr::Const(v as int))))],
        Op::Clr => seq![WStmt::Store(o, WExpr::Const(0))],
        Op::MoveAdd(s) => seq![
            WStmt::Store(o + s, WExpr::Add(Box::new(WExpr::Load(o + s)), Box::new(WExpr::Load(o)))),
            WStmt::Store(o, WExpr::Const(0)),
        ],
        _ => Seq::empty(),
    }
}

#[verifier::spinoff_prover]
proof fn lemma_cell_op_text(st: SyncWat, op: Op)
    requires
        op is Inc || op is Dec || op is Clr || op is Add || op is MoveAdd,
    ensures
        ({
            let min = match op {
                Op::MoveAdd(s) => min_of(0, s),
                _ => 0,
            };
            let a = assure(st, min);
            sync_step(st, op).text == a.text + wstmts_text(cell_op_stmts(op, a.shift))
                && sync_step(st, op).shift == a.shift
        }),
{
    reveal_with_fuel(wstmts_text, 3);
    reveal_with_fuel(wexpr_text, 2);
    let min = match op {
        Op::MoveAdd(s) => min_of(0, s),
        _ => 0,
    };
    let a = assure(st, min);
    let w1 = cell_op_stmts(op, a.shift);
    if op is MoveAdd {
        assert(w1.drop_first()[0] == w1[1]);
        assert(w1.drop_first().drop_first() =~= Seq::<WStmt>::empty());
    } else {
        assert(w1.drop_first() =~= Seq::<WStmt>::empty());
    }
    assert(sync_step(st, op).text =~= a.text + wstmts_text(w1));
}

#[verifier::spinoff_prover]
#[verifier::rlimit(40)]
proof fn lemma_cell_op_machine(op: Op, o: int, m: Machine, tracks: Option<nat>, t: int)
    requires
        op is Inc || op is Dec || op is Clr || op is Add || op is MoveAdd,
        op_on_tape(op, m),
        op matches Op::MoveAdd(s) ==> s != 0,
    ensures
        step(op, m, tracks).1 is None,
        wstmts_run(cell_op_stmts(op, o), (WMem { cells: m.cells, ptr: m.ptr - o, tmp: t, output: m.output })).cells == step(op, m, tracks).0.cells,
        wstmts_run(cell_op_stmts(op, o), (WMem { cells: m.cells, ptr: m.ptr - o, tmp: t, output: m.output })).ptr == m.ptr - o,
        wstmts_run(cell_op_stmts(op, o), (WMem { cells: m.cells, ptr: m.ptr - o, tmp: t, output: m.output })).output == m.output,
        step(op, m, tracks).0.output == m.output,
        step(op, m, tracks).0.ptr == m.ptr,
{
    reveal_with_fuel(wstmts_run, 3);
    reveal_with_fuel(wexpr_val, 2);
    let mm1 = WMem { cells: m.cells, ptr: m.ptr - o, tmp: t, output: m.output };
    let w1 = cell_op_stmts(op, o);
    let p = m.ptr;
    match op {
        Op::Inc => {
            lemma_store_add_const(mm1, o, 1, 1);
            assert(w1.drop_first() =~= Seq::<WStmt>::empty());
        },
        Op::Dec => {
            lemma_store_add_const(mm1, o, -1, 255);
            assert(w1.drop_first() =~= Seq::<WStmt>::empty());
        },
        Op::Add(v) => {
            lemma_store_add_const(mm1, o, v as int, v);
            assert(w1.drop_first() =~= Seq::<WStmt>::empty());
        },
        Op::Clr => {
            assert(i32_wrap(0) == 0);
            assert(w1.drop_first() =~= Seq::<WStmt>::empty());
        },
        Op::MoveAdd(s) => {
            let c = m.cells;
            assert(crate::semantics::grow(c, p + s) == c);
            let v1 = ((c[p + s] + c[p]) % 256) as u8;
            let mm2 = wstmt_run(w1[0], mm1);
            assert(i32_wrap(c[p + s] + c[p]) == c[p + s] + c[p]);
            assert(mm2.cells == c.update(p + s, v1));
            assert(w1.drop_first()[0] == w1[1]);
            assert(w1.drop_first().drop_first() =~= Seq::<WStmt>::empty());
            let m1 = crate::semantics::add_current_to(m, s).unwrap();
            assert(m1.cells == c.update(p + s, v1));
        },
        _ => {},
    }
}

#[verifier::spinoff_prover]
#[verifier::rlimit(40)]
proof fn lemma_sync_step_wat_cells(st: SyncWat, op: Op) -> (w: Seq<WStmt>)
    requires
        op is Inc || op is Dec || op is Clr || op is Add || op is MoveAdd,
        sync_step(st, op).ok,
    ensures
        sync_step(st, op).text == st.text + wstmts_text(w),
        (forall|m: Machine, tracks: Option<nat>, t: int|
            #![trigger step(op, m, tracks), wstmts_run(w, WMem { cells: m.cells, ptr: m.ptr - st.shift, tmp: t, output: m.output })]
            op_on_tape(op, m) ==> {
                &&& step(op, m, tracks).1 is None
                &&& wstmts_run(w, WMem { cells: m.cells, ptr: m.ptr - st.shift, tmp: t, output: m.output }).cells == step(op, m, tracks).0.cells
                &&& wstmts_run(w, WMem { cells: m.cells, ptr: m.ptr - st.shift, tmp: t, output: m.output }).ptr
                    == step(op, m, tracks).0.ptr - sync_step(st, op).shift
                &&& wstmts_run(w, WMem { cells: m.cells, ptr: m.ptr - st.shift, tmp: t, output: m.output }).output
                    == step(op, m, tracks).0.output
            }),
{
    let min = match op {
        Op::MoveAdd(s) => min_of(0, s),
        _ => 0,
    };
    let a = assure(st, min);
    let w0 = lemma_assure_stmts(st, min);
    let o = a.shift;
    let w1 = cell_op_stmts(op, o);
    let w = w0 + w1;
    let r = sync_step(st, op);
    assert(r.text == st.text + wstmts_text(w) && r.shift == o) by {
        lemma_wstmts_text_add(w0, w1);
        lemma_cell_op_text(st, op);
        assert(r.text =~= st.text + wstmts_text(w));
    }
    assert forall|m: Machine, tracks: Option<nat>, t: int|
        #![trigger step(op, m, tracks), wstmts_run(w, WMem { cells: m.cells, ptr: m.ptr - st.shift, tmp: t, output: m.output })]
        op_on_tape(op, m) implies {
            &&& step(op, m, tracks).1 is None
            &&& wstmts_run(w, WMem { cells: m.cells, ptr: m.ptr - st.shift, tmp: t, output: m.output }).cells == step(op, m, tracks).0.cells
            &&& wstmts_run(w, WMem { cells: m.cells, ptr: m.ptr - st.shift, tmp: t, output: m.output }).ptr
                == step(op, m, tracks).0.ptr - sync_step(st, op).shift
            &&& wstmts_run(w, WMem { cells: m.cells, ptr: m.ptr - st.shift, tmp: t, output: m.output }).output
                == step(op, m, tracks).0.output
        } by {
        let mm = WMem { cells: m.cells, ptr: m.ptr - st.shift, tmp: t, output: m.output };
        lemma_wstmts_run_add(w0, w1, mm);
        assert(wstmts_run(w0, mm) == WMem { cells: m.cells, ptr: m.ptr - o, tmp: t, output: m.output });
        lemma_cell_op_machine(op, o, m, tracks, t);
        assert(wstmts_run(w, mm).ptr == m.ptr - o);
        assert(step(op, m, tracks).0.ptr == m.ptr);
    }
    w
}

/// Each operation of a block, run in turn from `m`, touches only cells that
/// exist on the tape at that point.
pub open spec fn block_on_tape(ops: Seq<Op>, m: Machine, tracks: Option<nat>, fuel: nat) -> bool
    decreases ops.len(),
{
    if ops.len() == 0 {
        true
    } else {
        block_on_tape(ops.drop_last(), m, tracks, fuel)
            && op_on_tape(ops.last(), run_seq(ops.drop_last(), m, tracks, fuel).0)
    }
}

proof fn lemma_run_seq_last(ops: Seq<Op>, m: Machine, tracks: Option<nat>, fuel: nat)
    requires
        ops.len() > 0,
        !(ops.last() is Loop),
    ensures
        run_seq(ops, m, tracks, fuel) == ({
            let (m1, e) = run_seq(ops.drop_last(), m, tracks, fuel);
            if e is Some { (m1, e) } else { step(ops.last(), m1, tracks) }
        }),
{
    let pre = ops.drop_last();
    assert(ops =~= pre + seq![ops.last()]);
    crate::opt_equiv::lemma_run_append(pre, seq![ops.last()], m, tracks, fuel);
    let m1 = run_seq(pre, m, tracks, fuel).0;
    let (m2, e2) = run_one(ops.last(), m1, tracks, fuel);
    assert(seq![ops.last()][0] == ops.last());
    assert(seq![ops.last()].drop_first() =~= Seq::<Op>::empty());
    assert(run_seq(Seq::<Op>::empty(), m2, tracks, fuel) == (m2, Option::<crate::semantics::RunErr>::None));
    assert(run_seq(seq![ops.last()], m1, tracks, fuel) == (m2, e2));
}

proof fn lemma_sync_step_none(st: SyncWat, op: Op, wo: Seq<WStmt>, m1: Machine, tracks: Option<nat>)
    requires
        op_on_tape(op, m1),
        forall|m: Machine, tracks: Option<nat>, t: int|
            #![trigger step(op, m, tracks), wstmts_run(wo, WMem { cells: m.cells, ptr: m.ptr - st.shift, tmp: t, output: m.output })]
            op_on_tape(op, m) ==> step(op, m, tracks).1 is None,
    ensures
        step(op, m1, tracks).1 is None,
{
    let x = wstmts_run(wo, WMem { cells: m1.cells, ptr: m1.ptr - st.shift, tmp: 0, output: m1.output });
}

#[verifier::spinoff_prover]
proof fn lemma_sync_acc_wat_runs(ops: Seq<Op>, cnt: int, tracks: Option<nat>, fuel: nat) -> (w: Seq<WStmt>)
    requires
        forall|i: int| 0 <= i < ops.len() ==> wasm_cell_op(#[trigger] ops[i]),
        sync_acc(ops, cnt).ok,
    ensures
        sync_acc(ops, cnt).text == wstmts_text(w),
        forall|m: Machine| block_on_tape(ops, m, tracks, fuel) ==> (#[trigger] run_seq(ops, m, tracks, fuel)).1 is None,
        (forall|m: Machine, t: int|
            #![trigger run_seq(ops, m, tracks, fuel), wstmts_run(w, WMem { cells: m.cells, ptr: m.ptr, tmp: t, output: m.output })]
            block_on_tape(ops, m, tracks, fuel) ==> {
                &&& wstmts_run(w, WMem { cells: m.cells, ptr: m.ptr, tmp: t, output: m.output }).cells == run_seq(ops, m, tracks, fuel).0.cells
                &&& wstmts_run(w, WMem { cells: m.cells, ptr: m.ptr, tmp: t, output: m.output }).ptr
                    == run_seq(ops, m, tracks, fuel).0.ptr - sync_acc(ops, cnt).shift
                &&& wstmts_run(w, WMem { cells: m.cells, ptr: m.ptr, tmp: t, output: m.output }).output
                    == run_seq(ops, m, tracks, fuel).0.output
            }),
    decreases ops.len(),
{
    if ops.len() == 0 {
        let w = Seq::<WStmt>::empty();
        assert forall|m: Machine, t: int|
            #![trigger run_seq(ops, m, tracks, fuel), wstmts_run(w, WMem { cells: m.cells, ptr: m.ptr, tmp: t, output: m.output })]
            block_on_tape(ops, m, tracks, fuel) implies {
                &&& wstmts_run(w, WMem { cells: m.cells, ptr: m.ptr, tmp: t, output: m.output }).cells == run_seq(ops, m, tracks, fuel).0.cells
                &&& wstmts_run(w, WMem { cells: m.cells, ptr: m.ptr, tmp: t, output: m.output }).ptr
                    == run_seq(ops, m, tracks, fuel).0.ptr - sync_acc(ops, cnt).shift
                &&& wstmts_run(w, WMem { cells: m.cells, ptr: m.ptr, tmp: t, output: m.output }).output
                    == run_seq(ops, m, tracks, fuel).0.output
            } by {
        }
        w
    } else {
        let pre = ops.drop_last();
        let op = ops.last();
        assert(op == ops[ops.len() - 1]);
        assert forall|i: int| 0 <= i < pre.len() implies wasm_cell_op(#[trigger] pre[i]) by {
            assert(pre[i] == ops[i]);
        }
        let st = sync_acc(pre, cnt);
        lemma_sync_step_ok(st, op);
        let wp = lemma_sync_acc_wat_runs(pre, cnt, tracks, fuel);
        let wo = lemma_sync_step_wat_runs(st, op);
        let w = wp + wo;
        lemma_wstmts_text_add(wp, wo);
        assert(sync_acc(ops, cnt).text == wstmts_text(w));
        assert forall|m: Machine| block_on_tape(ops, m, tracks, fuel) implies (#[trigger] run_seq(ops, m, tracks, fuel)).1 is None by {
            assert(run_seq(pre, m, tracks, fuel).1 is None);
            let m1 = run_seq(pre, m, tracks, fuel).0;
            assert(op_on_tape(op, m1));
            lemma_sync_step_none(st, op, wo, m1, tracks);
            lemma_run_seq_last(ops, m, tracks, fuel);
        }
        assert forall|m: Machine, t: int|
            #![trigger run_seq(ops, m, tracks, fuel), wstmts_run(w, WMem { cells: m.cells, ptr: m.ptr, tmp: t, output: m.output })]
            block_on_tape(ops, m, tracks, fuel) implies {
                &&& wstmts_run(w, WMem { cells: m.cells, ptr: m.ptr, tmp: t, output: m.output }).cells == run_seq(ops, m, tracks, fuel).0.cells
                &&& wstmts_run(w, WMem { cells: m.cells, ptr: m.ptr, tmp: t, output: m.output }).ptr
                    == run_seq(ops, m, tracks, fuel).0.ptr - sync_acc(ops, cnt).shift
                &&& wstmts_run(w, WMem { cells: m.cells, ptr: m.ptr, tmp: t, output: m.output }).output
                    == run_seq(ops, m, tracks, fuel).0.output
            } by {
            let mm = WMem { cells: m.cells, ptr: m.ptr, tmp: t, output: m.output };
            lemma_wstmts_run_add(wp, wo, mm);
            let wm = wstmts_run(wp, mm);
            assert(run_seq(pre, m, tracks, fuel).1 is None);
            let m1 = run_seq(pre, m, tracks, fuel).0;
            assert(wm.cells == m1.cells && wm.ptr == m1.ptr - st.shift);
            assert(wm == WMem { cells: m1.cells, ptr: m1.ptr - st.shift, tmp: wm.tmp, output: m1.output });
            assert(op_on_tape(op, m1));
            lemma_sync_step_none(st, op, wo, m1, tracks);
            assert(wstmts_run(wo, WMem { cells: m1.cells, ptr: m1.ptr - st.shift, tmp: wm.tmp, output: m1.output }).cells == step(op, m1, tracks).0.cells);
            lemma_run_seq_last(ops, m, tracks, fuel);
        }
        w
    }
}

/// Running the WebAssembly of a block leaves the tape and output that running
/// the block leaves. For a block of cell changes, pointer moves and output, the
/// text of `sync_text` is that of statements which, run from any machine whose
/// run of the block stays on its tape (the cell pointer standing on the
/// Brainfuck pointer), leave the same cells and output as the Brainfuck run and
/// end with the cell pointer on the final Brainfuck pointer.
#[verifier::spinoff_prover]
pub proof fn lemma_sync_text_runs(ops: Seq<Op>, cnt: int, tracks: Option<nat>, fuel: nat) -> (w: Seq<WStmt>)
    requires
        forall|i: int| 0 <= i < ops.len() ==> wasm_cell_op(#[trigger] ops[i]),
        sync_text(ops, cnt).ok,
    ensures
        sync_text(ops, cnt).text == wstmts_text(w),
        forall|m: Machine| block_on_tape(ops, m, tracks, fuel) ==> (#[trigger] run_seq(ops, m, tracks, fuel)).1 is None,
        (forall|m: Machine, t: int|
            #![trigger run_seq(ops, m, tracks, fuel), wstmts_run(w, WMem { cells: m.cells, ptr: m.ptr, tmp: t, output: m.output })]
            block_on_tape(ops, m, tracks, fuel) ==> {
                &&& wstmts_run(w, WMem { cells: m.cells, ptr: m.ptr, tmp: t, output: m.output }).cells == run_seq(ops, m, tracks, fuel).0.cells
                &&& wstmts_run(w, WMem { cells: m.cells, ptr: m.ptr, tmp: t, output: m.output }).ptr == run_seq(ops, m, tracks, fuel).0.ptr
                &&& wstmts_run(w, WMem { cells: m.cells, ptr: m.ptr, tmp: t, output: m.output }).output == run_seq(ops, m, tracks, fuel).0.output
            }),
{
    let a = sync_acc(ops, cnt);
    let wa = lemma_sync_acc_wat_runs(ops, cnt, tracks, fuel);
    let ws = if a.shift != 0 { seq![WStmt::MovePtr(a.shift)] } else { Seq::<WStmt>::empty() };
    reveal_with_fuel(wstmts_text, 2);
    reveal_with_fuel(wstmts_run, 2);
    assert(ws.len() > 0 ==> ws.drop_first() =~= Seq::<WStmt>::empty());
    let w = wa + ws;
    lemma_wstmts_text_add(wa, ws);
    assert(sync_text(ops, cnt).text =~= wstmts_text(w));
    assert forall|m: Machine, t: int|
        #![trigger run_seq(ops, m, tracks, fuel), wstmts_run(w, WMem { cells: m.cells, ptr: m.ptr, tmp: t, output: m.output })]
        block_on_tape(ops, m, tracks, fuel) implies {
            &&& wstmts_run(w, WMem { cells: m.cells, ptr: m.ptr, tmp: t, output: m.output }).cells == run_seq(ops, m, tracks, fuel).0.cells
            &&& wstmts_run(w, WMem { cells: m.cells, ptr: m.ptr, tmp: t, output: m.output }).ptr == run_seq(ops, m, tracks, fuel).0.ptr
            &&& wstmts_run(w, WMem { cells: m.cells, ptr: m.ptr, tmp: t, output: m.output }).output == run_seq(ops, m, tracks, fuel).0.output
        } by {
        let mm = WMem { cells: m.cells, ptr: m.ptr, tmp: t, output: m.output };
        lemma_wstmts_run_add(wa, ws, mm);
        assert(wstmts_run(wa, mm).cells == run_seq(ops, m, tracks, fuel).0.cells);
    }
    w
}

}
