use crate::hir2sam::SamBlock;
use crate::sam::{sop_encoding, SamIVal, SamSOp};
use vstd::prelude::*;

verus! {

/// An instruction of a function before linking: calls name their function,
/// and jumps name their block.
#[derive(Debug)]
pub enum SamLOp {
    Simple(SamSOp),
    Call(String),
    JmpToBlockIfX(usize),
}

/// The number of bytes an instruction takes once linked.
pub open spec fn lop_len(op: SamLOp) -> nat {
    match op {
        SamLOp::Simple(s) => sop_encoding(s).len(),
        SamLOp::Call(_) => 5,
        SamLOp::JmpToBlockIfX(_) => 5,
    }
}

impl SamLOp {
    pub fn len(&self) -> (r: usize)
        ensures r == lop_len(*self),
    {
        match self {
            SamLOp::Simple(op) => op.len(),
            SamLOp::Call(_) => 5,
            SamLOp::JmpToBlockIfX(_) => 5,
        }
    }
}

/// A function before linking: its blocks, and the sizes of its arguments and result.
#[derive(Debug)]
pub struct SamFn {
    pub name: String,
    pub arg_sizes: Vec<u32>,
    pub ret_size: u32,
    pub blocks: Vec<SamBlock>,
}

pub open spec fn sum_u32(s: Seq<u32>) -> int
    decreases s.len(),
{
    if s.len() == 0 { 0 } else { sum_u32(s.drop_last()) + s.last() }
}

impl SamFn {
    /// The total size of the arguments.
    fn total_arg_size(&self) -> (r: u32)
        requires sum_u32(self.arg_sizes@) <= u32::MAX,
        ensures r == sum_u32(self.arg_sizes@),
    {
        let mut result: u32 = 0;
        let mut i: usize = 0;
        while i < self.arg_sizes.len()
            invariant
                0 <= i <= self.arg_sizes@.len(),
                result == sum_u32(self.arg_sizes@.take(i as int)),
                sum_u32(self.arg_sizes@) <= u32::MAX,
            decreases self.arg_sizes@.len() - i,
        {
            proof { lemma_sum_prefix(self.arg_sizes@, i as int + 1); }
            assert(self.arg_sizes@.take(i + 1).drop_last() =~= self.arg_sizes@.take(i as int));
            result = result + self.arg_sizes[i];
            i = i + 1;
        }
        assert(self.arg_sizes@.take(i as int) =~= self.arg_sizes@);
        result
    }
}

proof fn lemma_sum_prefix(s: Seq<u32>, k: int)
    requires 0 <= k <= s.len(),
    ensures sum_u32(s.take(k)) <= sum_u32(s),
    decreases s.len() - k,
{
    if k < s.len() {
        lemma_sum_prefix(s, k + 1);
        assert(s.take(k + 1).drop_last() =~= s.take(k));
    } else {
        assert(s.take(k) =~= s);
    }
}

/// The position of the first entry named `name`, if any.
pub open spec fn start_of(table: Seq<(String, u32)>, name: Seq<char>) -> Option<u32>
    decreases table.len(),
{
    if table.len() == 0 {
        None
    } else if table[0].0@ == name {
        Some(table[0].1)
    } else {
        start_of(table.skip(1), name)
    }
}

/// A linked program: its bytes, and where each function starts.
pub struct CompiledSamProgram {
    pub bytes: Vec<u8>,
    pub fn_start_poss: Vec<(String, u32)>,
}

impl CompiledSamProgram {
    /// Where the function `name` starts.
    pub fn fn_start_pos(&self, name: &String) -> (r: Option<u32>)
        ensures r == start_of(self.fn_start_poss@, name@),
    {
        let mut i: usize = 0;
        assert(self.fn_start_poss@.skip(0) =~= self.fn_start_poss@);
        while i < self.fn_start_poss.len()
            invariant
                0 <= i <= self.fn_start_poss@.len(),
                start_of(self.fn_start_poss@, name@) == start_of(self.fn_start_poss@.skip(i as int), name@),
            decreases self.fn_start_poss@.len() - i,
        {
            assert(self.fn_start_poss@.skip(i as int).skip(1) =~= self.fn_start_poss@.skip(i + 1));
            if self.fn_start_poss[i].0 == *name {
                return Some(self.fn_start_poss[i].1);
            }
            i = i + 1;
        }
        None
    }
}

}
verus! {

// ---------------------------------------------------------------------------
// The order in which the blocks of a function are laid out: start with the
// first block not laid out yet, then its successor, then that one's
// successor, and so on while they are not laid out yet; repeat.
// ---------------------------------------------------------------------------

/// Every successor index names a block.
pub open spec fn successors_ok(blocks: Seq<SamBlock>) -> bool {
    forall|i: int| 0 <= i < blocks.len() ==> match #[trigger] blocks[i].next_block_index {
        Some(n) => n < blocks.len(),
        None => true,
    }
}

/// The smallest block index, from `from` on, that `placed` does not hold.
pub open spec fn first_unplaced(n: int, placed: Seq<int>, from: int) -> int
    decreases n - from,
{
    if from >= n || !placed.contains(from) {
        from
    } else {
        first_unplaced(n, placed, from + 1)
    }
}

/// Lays out `b`, then its successor, and so on, until a block is already laid out.
pub open spec fn chain(blocks: Seq<SamBlock>, placed: Seq<int>, b: int) -> Seq<int>
    decreases blocks.len() - placed.len(),
{
    if placed.len() >= blocks.len() || placed.contains(b) || !(0 <= b < blocks.len()) {
        placed
    } else {
        match blocks[b].next_block_index {
            Some(nx) => chain(blocks, placed.push(b), nx as int),
            None => placed.push(b),
        }
    }
}

pub open spec fn greedy_from(blocks: Seq<SamBlock>, placed: Seq<int>) -> Seq<int>
    decreases blocks.len() - placed.len(),
{
    if placed.len() >= blocks.len() {
        placed
    } else {
        let next = chain(blocks, placed, first_unplaced(blocks.len() as int, placed, 0));
        if next.len() <= placed.len() || next.len() > blocks.len() {
            placed
        } else {
            greedy_from(blocks, next)
        }
    }
}

/// The layout order of the blocks: `block_order(blocks)[k]` is the block laid out `k`-th.
pub open spec fn block_order(blocks: Seq<SamBlock>) -> Seq<int> {
    greedy_from(blocks, Seq::empty())
}

/// `placed` holds distinct block indices.
pub open spec fn distinct_in(n: int, placed: Seq<int>) -> bool {
    &&& forall|i: int| 0 <= i < placed.len() ==> 0 <= #[trigger] placed[i] < n
    &&& forall|i: int, j: int| 0 <= i < j < placed.len() ==> placed[i] != placed[j]
}

proof fn lemma_distinct_len(n: int, placed: Seq<int>)
    requires distinct_in(n, placed), n >= 0,
    ensures placed.len() <= n,
{
    let s = placed.to_set();
    assert(s.subset_of(vstd::set_lib::set_int_range(0, n)));
    vstd::set_lib::lemma_int_range(0, n);
    vstd::set_lib::lemma_len_subset(s, vstd::set_lib::set_int_range(0, n));
    placed.unique_seq_to_set();
}

proof fn lemma_first_unplaced(n: int, placed: Seq<int>, from: int)
    requires
        0 <= from <= n,
        distinct_in(n, placed),
        placed.len() < n,
        forall|j: int| 0 <= j < from ==> placed.contains(j),
    ensures
        0 <= first_unplaced(n, placed, from) < n,
        !placed.contains(first_unplaced(n, placed, from)),
        forall|j: int| 0 <= j < first_unplaced(n, placed, from) ==> placed.contains(j),
    decreases n - from,
{
    if from >= n {
        // every index is laid out: too many
        assert forall|j: int| 0 <= j < n implies placed.contains(j) by {}
        let s = placed.to_set();
        assert(vstd::set_lib::set_int_range(0, n).subset_of(s));
        vstd::set_lib::lemma_int_range(0, n);
        vstd::set_lib::lemma_len_subset(vstd::set_lib::set_int_range(0, n), s);
        placed.unique_seq_to_set();
        assert(false);
    } else if placed.contains(from) {
        lemma_first_unplaced(n, placed, from + 1);
    }
}

proof fn lemma_chain(blocks: Seq<SamBlock>, placed: Seq<int>, b: int)
    requires
        successors_ok(blocks),
        distinct_in(blocks.len() as int, placed),
    ensures
        distinct_in(blocks.len() as int, chain(blocks, placed, b)),
        placed.is_prefix_of(chain(blocks, placed, b)),
        (0 <= b < blocks.len() && !placed.contains(b)) ==> chain(blocks, placed, b).len() > placed.len(),
    decreases blocks.len() - placed.len(),
{
    lemma_distinct_len(blocks.len() as int, placed);
    if placed.len() >= blocks.len() || placed.contains(b) || !(0 <= b < blocks.len()) {
        if 0 <= b < blocks.len() && !placed.contains(b) {
            // placed would hold every index and not b
            let s = placed.to_set();
            assert(s.subset_of(vstd::set_lib::set_int_range(0, blocks.len() as int).remove(b)));
            vstd::set_lib::lemma_int_range(0, blocks.len() as int);
            vstd::set_lib::lemma_len_subset(s, vstd::set_lib::set_int_range(0, blocks.len() as int).remove(b));
            placed.unique_seq_to_set();
        }
    } else {
        let p2 = placed.push(b);
        assert(distinct_in(blocks.len() as int, p2)) by {
            assert forall|i: int, j: int| 0 <= i < j < p2.len() implies p2[i] != p2[j] by {
                if j == placed.len() {
                    assert(placed[i] == p2[i]);
                }
            }
        }
        match blocks[b].next_block_index {
            Some(nx) => {
                lemma_chain(blocks, p2, nx as int);
            },
            None => {},
        }
    }
}

proof fn lemma_greedy_from(blocks: Seq<SamBlock>, placed: Seq<int>)
    requires
        successors_ok(blocks),
        distinct_in(blocks.len() as int, placed),
    ensures
        distinct_in(blocks.len() as int, greedy_from(blocks, placed)),
        greedy_from(blocks, placed).len() == blocks.len(),
        placed.is_prefix_of(greedy_from(blocks, placed)),
    decreases blocks.len() - placed.len(),
{
    let n = blocks.len() as int;
    lemma_distinct_len(n, placed);
    if placed.len() < n {
        assert forall|j: int| 0 <= j < 0 implies placed.contains(j) by {}
        lemma_first_unplaced(n, placed, 0);
        let f = first_unplaced(n, placed, 0);
        lemma_chain(blocks, placed, f);
        let next = chain(blocks, placed, f);
        lemma_distinct_len(n, next);
        lemma_greedy_from(blocks, next);
        let g = greedy_from(blocks, next);
        assert(g.subrange(0, placed.len() as int) =~= next.subrange(0, placed.len() as int));
    }
}

/// The layout order holds every block exactly once.
pub proof fn lemma_block_order(blocks: Seq<SamBlock>)
    requires successors_ok(blocks),
    ensures
        distinct_in(blocks.len() as int, block_order(blocks)),
        block_order(blocks).len() == blocks.len(),
{
    lemma_greedy_from(blocks, Seq::empty());
}

}
verus! {

pub open spec fn ints(s: Seq<usize>) -> Seq<int> {
    s.map_values(|v: usize| v as int)
}

/// `pre_to_post` is the inverse of `placed` on the blocks laid out so far.
spec fn inverse_of(pre_to_post: Seq<Option<usize>>, placed: Seq<int>) -> bool {
    &&& forall|k: int| 0 <= k < placed.len() ==> pre_to_post[#[trigger] placed[k]] == Some(k as usize)
    &&& forall|b: int| 0 <= b < pre_to_post.len() && pre_to_post[b] is Some
        ==> #[trigger] pre_to_post[b]->0 < placed.len() && placed[pre_to_post[b]->0 as int] == b
}

/// Computes the layout order of the blocks, and for each block its place in it.
fn order_blocks(blocks: &Vec<SamBlock>) -> (r: (Vec<usize>, Vec<usize>))
    requires successors_ok(blocks@),
    ensures
        ints(r.0@) == block_order(blocks@),
        r.1@.len() == blocks@.len(),
        forall|k: int| 0 <= k < blocks@.len() ==> r.1@[#[trigger] r.0@[k] as int] == k,
        forall|b: int| 0 <= b < blocks@.len() ==> r.0@[#[trigger] r.1@[b] as int] == b && r.1@[b] < blocks@.len(),
{
    let n = blocks.len();
    let ghost bs = blocks@;
    let mut pre_to_post_num: Vec<Option<usize>> = Vec::new();
    while pre_to_post_num.len() < n
        invariant
            pre_to_post_num@.len() <= n,
            forall|b: int| 0 <= b < pre_to_post_num@.len() ==> #[trigger] pre_to_post_num@[b] is None,
        decreases n - pre_to_post_num@.len(),
    {
        pre_to_post_num.push(None);
    }
    let mut post_to_pre_num: Vec<usize> = Vec::new();
    proof {
        assert(ints(post_to_pre_num@) =~= Seq::<int>::empty());
    }
    while post_to_pre_num.len() < n
        invariant
            n == bs.len(),
            bs == blocks@,
            successors_ok(bs),
            pre_to_post_num@.len() == n,
            distinct_in(n as int, ints(post_to_pre_num@)),
            inverse_of(pre_to_post_num@, ints(post_to_pre_num@)),
            greedy_from(bs, ints(post_to_pre_num@)) == block_order(bs),
        decreases n - post_to_pre_num@.len(),
    {
        let ghost placed0 = ints(post_to_pre_num@);
        proof {
            lemma_distinct_len(n as int, placed0);
            assert forall|j: int| 0 <= j < 0 implies placed0.contains(j) by {}
            lemma_first_unplaced(n as int, placed0, 0);
        }
        // find the first block not laid out yet
        let mut pre_num: usize = 0;
        while pre_to_post_num[pre_num].is_some()
            invariant
                pre_to_post_num@.len() == n,
                inverse_of(pre_to_post_num@, placed0),
                placed0 == ints(post_to_pre_num@),
                0 <= pre_num <= first_unplaced(n as int, placed0, 0) < n,
                forall|j: int| 0 <= j < first_unplaced(n as int, placed0, 0) ==> placed0.contains(j),
                !placed0.contains(first_unplaced(n as int, placed0, 0)),
                distinct_in(n as int, placed0),
            decreases first_unplaced(n as int, placed0, 0) - pre_num,
        {
            proof {
                if pre_num == first_unplaced(n as int, placed0, 0) {
                    let k = pre_to_post_num@[pre_num as int]->0 as int;
                    assert(placed0[k] == pre_num);
                    assert(placed0.contains(pre_num as int));
                }
            }
            pre_num = pre_num + 1;
        }
        proof {
            if pre_num < first_unplaced(n as int, placed0, 0) {
                assert(placed0.contains(pre_num as int));
                let k = choose|k: int| 0 <= k < placed0.len() && placed0[k] == pre_num;
                assert(pre_to_post_num@[placed0[k]] == Some(k as usize));
            }
        }
        let ghost target = chain(bs, placed0, pre_num as int);
        proof { lemma_chain(bs, placed0, pre_num as int); }
        // lay out that block, then its successors while they are not laid out yet
        while pre_to_post_num[pre_num].is_none()
            invariant_except_break
                0 <= pre_num < n,
                target == chain(bs, ints(post_to_pre_num@), pre_num as int),
            invariant
                n == bs.len(),
                bs == blocks@,
                successors_ok(bs),
                pre_to_post_num@.len() == n,
                distinct_in(n as int, ints(post_to_pre_num@)),
                inverse_of(pre_to_post_num@, ints(post_to_pre_num@)),
            ensures
                target == ints(post_to_pre_num@),
                distinct_in(n as int, ints(post_to_pre_num@)),
                inverse_of(pre_to_post_num@, ints(post_to_pre_num@)),
                pre_to_post_num@.len() == n,
            decreases n - post_to_pre_num@.len(),
        {
            let ghost placed = ints(post_to_pre_num@);
            proof {
                lemma_distinct_len(n as int, placed);
                if placed.contains(pre_num as int) {
                    let k = choose|k: int| 0 <= k < placed.len() && placed[k] == pre_num;
                    assert(pre_to_post_num@[placed[k]] == Some(k as usize));
                }
                if placed.len() >= n {
                    lemma_distinct_len(n as int, placed.push(pre_num as int));
                }
            }
            let post = post_to_pre_num.len();
            pre_to_post_num.set(pre_num, Some(post));
            post_to_pre_num.push(pre_num);
            let ghost placed2 = ints(post_to_pre_num@);
            proof {
                assert(placed2 =~= placed.push(pre_num as int));
                assert(distinct_in(n as int, placed2)) by {
                    assert forall|i: int, j: int| 0 <= i < j < placed2.len() implies placed2[i] != placed2[j] by {
                        if j == placed.len() {
                            assert(placed[i] == placed2[i]);
                        }
                    }
                }
            }
            match blocks[pre_num].next_block_index {
                Some(next) => {
                    pre_num = next;
                },
                None => {
                    break;
                },
            }
        }
        proof {
            lemma_distinct_len(n as int, target);
        }
    }
    let ghost order = ints(post_to_pre_num@);
    proof {
        assert(inverse_of(pre_to_post_num@, order));
        assert(pre_to_post_num@.len() == n);
        lemma_distinct_len(n as int, order);
        lemma_distinct_full(n as int, order);
        assert forall|b: int| 0 <= b < n implies #[trigger] pre_to_post_num@[b] is Some by {
            assert(order.contains(b));
            let k = choose|k: int| 0 <= k < order.len() && order[k] == b;
            assert(pre_to_post_num@[order[k]] == Some(k as usize));
        }
    }
    let mut pre_to_post: Vec<usize> = Vec::new();
    let mut i: usize = 0;
    while i < n
        invariant
            0 <= i <= n,
            n == blocks@.len(),
            pre_to_post_num@.len() == n,
            forall|b: int| 0 <= b < n ==> #[trigger] pre_to_post_num@[b] is Some,
            pre_to_post@.len() == i,
            forall|b: int| 0 <= b < i ==> Some(#[trigger] pre_to_post@[b]) == pre_to_post_num@[b],
        decreases n - i,
    {
        pre_to_post.push(pre_to_post_num[i].unwrap());
        i = i + 1;
    }
    proof {
        assert forall|k: int| 0 <= k < n implies pre_to_post@[#[trigger] post_to_pre_num@[k] as int] == k by {
            assert(order[k] == post_to_pre_num@[k] as int);
            assert(pre_to_post_num@[order[k]] == Some(k as usize));
        }
        assert forall|b: int| 0 <= b < n implies post_to_pre_num@[#[trigger] pre_to_post@[b] as int] == b && pre_to_post@[b] < n by {
            assert(pre_to_post_num@[b] is Some);
            let p = pre_to_post_num@[b]->0 as int;
            assert(order[p] == b);
        }
    }
    (post_to_pre_num, pre_to_post)
}

proof fn lemma_distinct_full(n: int, placed: Seq<int>)
    requires distinct_in(n, placed), placed.len() == n,
    ensures forall|b: int| 0 <= b < n ==> placed.contains(b),
{
    assert forall|b: int| 0 <= b < n implies placed.contains(b) by {
        if !placed.contains(b) {
            let s = placed.to_set();
            assert(s.subset_of(vstd::set_lib::set_int_range(0, n).remove(b)));
            vstd::set_lib::lemma_int_range(0, n);
            vstd::set_lib::lemma_len_subset(s, vstd::set_lib::set_int_range(0, n).remove(b));
            placed.unique_seq_to_set();
        }
    }
}

}
verus! {

use crate::sam::{op_encoding, SamOp};

// ---------------------------------------------------------------------------
// Where the blocks of a function go, and what bytes they become.
// ---------------------------------------------------------------------------

pub open spec fn lops_len(ops: Seq<SamLOp>) -> int
    decreases ops.len(),
{
    if ops.len() == 0 {
        0
    } else {
        lops_len(ops.drop_last()) + lop_len(ops.last())
    }
}

/// The block laid out `k`-th is followed by a jump to its successor, unless the
/// successor is laid out right after it.
pub open spec fn jmp_needed(blocks: Seq<SamBlock>, order: Seq<int>, k: int) -> bool {
    match blocks[order[k]].next_block_index {
        Some(t) => !(k < order.len() - 1 && t == order[k + 1]),
        None => false,
    }
}

pub open spec fn block_len(blocks: Seq<SamBlock>, order: Seq<int>, k: int) -> int {
    lops_len(blocks[order[k]].ops@) + if jmp_needed(blocks, order, k) { 5int } else { 0int }
}

/// Where the block laid out `k`-th starts, from the start of the function.
pub open spec fn block_start(blocks: Seq<SamBlock>, order: Seq<int>, k: int) -> int
    decreases k,
{
    if k <= 0 {
        0
    } else {
        block_start(blocks, order, k - 1) + block_len(blocks, order, k - 1)
    }
}

/// Where in the layout order block `b` stands.
pub open spec fn place_of(order: Seq<int>, b: int) -> int {
    choose|k: int| 0 <= k < order.len() && order[k] == b
}

/// Where block `b` starts, from the start of the function.
pub open spec fn start_of_block(blocks: Seq<SamBlock>, b: int) -> int {
    block_start(blocks, block_order(blocks), place_of(block_order(blocks), b))
}

pub open spec fn fn_len(blocks: Seq<SamBlock>) -> int {
    block_start(blocks, block_order(blocks), blocks.len() as int)
}

/// The linked form of an instruction at offset `at` of its function: calls go to the
/// start of the function they name, jumps go to the start of the block they name.
pub open spec fn link_lop(op: SamLOp, blocks: Seq<SamBlock>, at: int, table: Seq<(String, u32)>) -> SamOp {
    match op {
        SamLOp::Simple(s) => SamOp::Simple(s),
        SamLOp::Call(name) => SamOp::Call(start_of(table, name@).unwrap()),
        SamLOp::JmpToBlockIfX(b) => SamOp::JmpIfX((start_of_block(blocks, b as int) - at) as i32),
    }
}

pub open spec fn lops_bytes(ops: Seq<SamLOp>, blocks: Seq<SamBlock>, at: int, table: Seq<(String, u32)>) -> Seq<u8>
    decreases ops.len(),
{
    if ops.len() == 0 {
        Seq::empty()
    } else {
        lops_bytes(ops.drop_last(), blocks, at, table)
            + op_encoding(link_lop(ops.last(), blocks, at + lops_len(ops.drop_last()), table))
    }
}

/// The bytes of the block laid out `k`-th: its instructions, then the jump to its
/// successor where one is needed.
pub open spec fn block_bytes(blocks: Seq<SamBlock>, k: int, table: Seq<(String, u32)>) -> Seq<u8> {
    let order = block_order(blocks);
    let blk = blocks[order[k]];
    let start = block_start(blocks, order, k);
    let end = start + lops_len(blk.ops@);
    lops_bytes(blk.ops@, blocks, start, table) + if jmp_needed(blocks, order, k) {
        op_encoding(SamOp::Jmp((start_of_block(blocks, blk.next_block_index->0 as int) - end) as i32))
    } else {
        Seq::empty()
    }
}

pub open spec fn blocks_bytes(blocks: Seq<SamBlock>, k: int, table: Seq<(String, u32)>) -> Seq<u8>
    decreases k,
{
    if k <= 0 {
        Seq::empty()
    } else {
        blocks_bytes(blocks, k - 1, table) + block_bytes(blocks, k - 1, table)
    }
}

/// The bytes of a function.
pub open spec fn fn_bytes(f: SamFn, table: Seq<(String, u32)>) -> Seq<u8> {
    blocks_bytes(f.blocks@, f.blocks@.len() as int, table)
}

pub open spec fn fns_len(fns: Seq<SamFn>) -> int
    decreases fns.len(),
{
    if fns.len() == 0 {
        0
    } else {
        fns_len(fns.drop_last()) + fn_len(fns.last().blocks@)
    }
}

/// Functions are laid out one after the other, in the given order.
pub open spec fn fn_table(fns: Seq<SamFn>) -> Seq<(String, u32)>
    decreases fns.len(),
{
    if fns.len() == 0 {
        Seq::empty()
    } else {
        fn_table(fns.drop_last()).push((fns.last().name, fns_len(fns.drop_last()) as u32))
    }
}

pub open spec fn program_bytes(fns: Seq<SamFn>, table: Seq<(String, u32)>) -> Seq<u8>
    decreases fns.len(),
{
    if fns.len() == 0 {
        Seq::empty()
    } else {
        program_bytes(fns.drop_last(), table) + fn_bytes(fns.last(), table)
    }
}

/// The instructions of a function name blocks and functions that exist.
pub open spec fn fn_ok(f: SamFn, fns: Seq<SamFn>) -> bool {
    &&& successors_ok(f.blocks@)
    &&& forall|i: int, j: int| 0 <= i < f.blocks@.len() && 0 <= j < f.blocks@[i].ops@.len() ==>
        match #[trigger] f.blocks@[i].ops@[j] {
            SamLOp::JmpToBlockIfX(b) => b < f.blocks@.len(),
            SamLOp::Call(name) => exists|g: int| 0 <= g < fns.len() && #[trigger] fns[g].name@ == name@,
            SamLOp::Simple(_) => true,
        }
    &&& fn_len(f.blocks@) <= i32::MAX
}

/// What the linker needs: each function names only blocks and functions that
/// exist, function names are distinct, and the program fits in the address space.
pub open spec fn linkable(fns: Seq<SamFn>) -> bool {
    &&& forall|i: int| 0 <= i < fns.len() ==> fn_ok(#[trigger] fns[i], fns)
    &&& forall|i: int, j: int| 0 <= i < j < fns.len() ==> fns[i].name@ != fns[j].name@
    &&& fns_len(fns) <= u32::MAX
}

}
verus! {

proof fn lemma_lops_len_take(ops: Seq<SamLOp>, i: int)
    requires 0 <= i < ops.len(),
    ensures
        lops_len(ops.take(i + 1)) == lops_len(ops.take(i)) + lop_len(ops[i]),
        ops.take(i + 1).drop_last() == ops.take(i),
        ops.take(i + 1).last() == ops[i],
{
    assert(ops.take(i + 1).drop_last() =~= ops.take(i));
}

proof fn lemma_lops_len_mono(ops: Seq<SamLOp>, i: int)
    requires 0 <= i <= ops.len(),
    ensures 0 <= lops_len(ops.take(i)) <= lops_len(ops),
    decreases ops.len() - i,
{
    if i == ops.len() {
        assert(ops.take(i) =~= ops);
        lemma_lops_len_nonneg(ops);
    } else {
        lemma_lops_len_take(ops, i);
        lemma_lops_len_mono(ops, i + 1);
        lemma_lops_len_nonneg(ops.take(i));
    }
}

proof fn lemma_lops_len_nonneg(ops: Seq<SamLOp>)
    ensures lops_len(ops) >= 0,
    decreases ops.len(),
{
    if ops.len() > 0 {
        lemma_lops_len_nonneg(ops.drop_last());
    }
}

proof fn lemma_block_start_mono(blocks: Seq<SamBlock>, order: Seq<int>, k: int, m: int)
    requires 0 <= k <= m,
    ensures 0 <= block_start(blocks, order, k) <= block_start(blocks, order, m),
    decreases m - k,
{
    if k < m {
        lemma_block_start_mono(blocks, order, k, m - 1);
        lemma_lops_len_nonneg(blocks[order[m - 1]].ops@);
    } else {
        lemma_block_start_nonneg(blocks, order, k);
    }
}

proof fn lemma_block_start_nonneg(blocks: Seq<SamBlock>, order: Seq<int>, k: int)
    ensures 0 <= block_start(blocks, order, k),
    decreases k,
{
    if k > 0 {
        lemma_block_start_nonneg(blocks, order, k - 1);
        lemma_lops_len_nonneg(blocks[order[k - 1]].ops@);
    }
}

proof fn lemma_place_of(order: Seq<int>, n: int, b: int, k: int)
    requires
        distinct_in(n, order),
        0 <= k < order.len(),
        order[k] == b,
    ensures place_of(order, b) == k,
{
    let p = place_of(order, b);
    assert(0 <= p < order.len() && order[p] == b);
    if p != k {
        if p < k {
            assert(order[p] != order[k]);
        } else {
            assert(order[k] != order[p]);
        }
    }
}

/// The number of bytes that `ops` take once linked.
fn ops_len(ops: &Vec<SamLOp>, Ghost(bound): Ghost<int>) -> (r: u64)
    requires lops_len(ops@) <= bound <= i32::MAX,
    ensures r == lops_len(ops@),
{
    let mut total: u64 = 0;
    let mut i: usize = 0;
    while i < ops.len()
        invariant
            0 <= i <= ops@.len(),
            total == lops_len(ops@.take(i as int)),
            lops_len(ops@) <= bound <= i32::MAX,
        decreases ops@.len() - i,
    {
        proof {
            lemma_lops_len_take(ops@, i as int);
            lemma_lops_len_mono(ops@, i + 1);
        }
        total = total + ops[i].len() as u64;
        i = i + 1;
    }
    assert(ops@.take(i as int) =~= ops@);
    total
}

/// Whether the block laid out `k`-th needs a jump to its successor.
fn needs_jmp(blocks: &Vec<SamBlock>, order: &Vec<usize>, k: usize) -> (r: bool)
    requires
        0 <= k < order@.len(),
        order@[k as int] < blocks@.len(),
    ensures r == jmp_needed(blocks@, ints(order@), k as int),
{
    match blocks[order[k]].next_block_index {
        Some(t) => !(order.len() - k > 1 && t == order[k + 1]),
        None => false,
    }
}

/// The layout of the blocks of a function: their order, the place of each block
/// in it, and where each block starts (the last entry: where the function ends).
fn layout(blocks: &Vec<SamBlock>) -> (r: (Vec<usize>, Vec<usize>, Vec<u64>))
    requires
        successors_ok(blocks@),
        fn_len(blocks@) <= i32::MAX,
    ensures
        ints(r.0@) == block_order(blocks@),
        r.1@.len() == blocks@.len(),
        forall|b: int| 0 <= b < blocks@.len() ==> #[trigger] r.1@[b] == place_of(block_order(blocks@), b),
        r.2@.len() == blocks@.len() + 1,
        forall|k: int| 0 <= k <= blocks@.len() ==> #[trigger] r.2@[k] == block_start(blocks@, block_order(blocks@), k),
{
    let (order, pos) = order_blocks(blocks);
    let ghost ord = ints(order@);
    let ghost n = blocks@.len() as int;
    proof {
        lemma_block_order(blocks@);
        assert forall|b: int| 0 <= b < n implies #[trigger] pos@[b] == place_of(ord, b) by {
            assert(order@[pos@[b] as int] == b);
            assert(ord[pos@[b] as int] == b);
            lemma_place_of(ord, n, b, pos@[b] as int);
        }
    }
    let mut starts: Vec<u64> = Vec::new();
    let mut cur: u64 = 0;
    let mut k: usize = 0;
    while k < blocks.len()
        invariant
            0 <= k <= n,
            n == blocks@.len(),
            ord == block_order(blocks@),
            ord == ints(order@),
            ord.len() == n,
            distinct_in(n, ord),
            fn_len(blocks@) <= i32::MAX,
            cur == block_start(blocks@, ord, k as int),
            starts@.len() == k,
            forall|j: int| 0 <= j < k ==> #[trigger] starts@[j] == block_start(blocks@, ord, j),
        decreases n - k,
    {
        starts.push(cur);
        proof {
            lemma_block_start_mono(blocks@, ord, k + 1, n);
            lemma_lops_len_nonneg(blocks@[ord[k as int]].ops@);
            assert(order@[k as int] as int == ord[k as int]);
        }
        let l = ops_len(&blocks[order[k]].ops, Ghost(fn_len(blocks@)));
        let j: u64 = if needs_jmp(blocks, &order, k) { 5 } else { 0 };
        cur = cur + l + j;
        k = k + 1;
    }
    starts.push(cur);
    (order, pos, starts)
}

}
verus! {

/// Where a table of function starts says the function `name` starts.
pub fn find_start(table: &Vec<(String, u32)>, name: &String) -> (r: Option<u32>)
    ensures r == start_of(table@, name@),
{
    let mut i: usize = 0;
    assert(table@.skip(0) =~= table@);
    while i < table.len()
        invariant
            0 <= i <= table@.len(),
            start_of(table@, name@) == start_of(table@.skip(i as int), name@),
        decreases table@.len() - i,
    {
        assert(table@.skip(i as int).skip(1) =~= table@.skip(i + 1));
        if table[i].0 == *name {
            return Some(table[i].1);
        }
        i = i + 1;
    }
    None
}

/// The linked form of the instruction `op` at offset `at` of its function.
fn link_op(op: &SamLOp, pos: &Vec<usize>, starts: &Vec<u64>, at: u64, table: &Vec<(String, u32)>,
    Ghost(blocks): Ghost<Seq<SamBlock>>) -> (r: SamOp)
    requires
        pos@.len() == blocks.len(),
        starts@.len() == blocks.len() + 1,
        forall|b: int| 0 <= b < blocks.len() ==> #[trigger] pos@[b] == place_of(block_order(blocks), b),
        forall|b: int| 0 <= b < blocks.len() ==> #[trigger] pos@[b] < blocks.len(),
        forall|k: int| 0 <= k <= blocks.len() ==> #[trigger] starts@[k] == block_start(blocks, block_order(blocks), k),
        forall|k: int| 0 <= k <= blocks.len() ==> #[trigger] starts@[k] <= i32::MAX,
        at <= i32::MAX,
        match *op {
            SamLOp::JmpToBlockIfX(b) => b < blocks.len(),
            SamLOp::Call(name) => start_of(table@, name@) is Some,
            SamLOp::Simple(_) => true,
        },
    ensures r == link_lop(*op, blocks, at as int, table@),
{
    match op {
        SamLOp::Simple(s) => SamOp::Simple(*s),
        SamLOp::Call(name) => SamOp::Call(find_start(table, name).unwrap()),
        SamLOp::JmpToBlockIfX(b) => {
            let target = starts[pos[*b]];
            SamOp::JmpIfX(target as i32 - at as i32)
        },
    }
}

/// Appends the linked bytes of `ops`, which start at offset `at` of their function.
fn emit_ops(ops: &Vec<SamLOp>, pos: &Vec<usize>, starts: &Vec<u64>, at: u64, table: &Vec<(String, u32)>,
    bytes: &mut Vec<u8>, Ghost(blocks): Ghost<Seq<SamBlock>>) -> (end: u64)
    requires
        pos@.len() == blocks.len(),
        starts@.len() == blocks.len() + 1,
        forall|b: int| 0 <= b < blocks.len() ==> #[trigger] pos@[b] == place_of(block_order(blocks), b),
        forall|b: int| 0 <= b < blocks.len() ==> #[trigger] pos@[b] < blocks.len(),
        forall|k: int| 0 <= k <= blocks.len() ==> #[trigger] starts@[k] == block_start(blocks, block_order(blocks), k),
        forall|k: int| 0 <= k <= blocks.len() ==> #[trigger] starts@[k] <= i32::MAX,
        at + lops_len(ops@) <= i32::MAX,
        forall|j: int| 0 <= j < ops@.len() ==> match #[trigger] ops@[j] {
            SamLOp::JmpToBlockIfX(b) => b < blocks.len(),
            SamLOp::Call(name) => start_of(table@, name@) is Some,
            SamLOp::Simple(_) => true,
        },
    ensures
        final(bytes)@ == old(bytes)@ + lops_bytes(ops@, blocks, at as int, table@),
        end == at + lops_len(ops@),
{
    let mut cur = at;
    let mut i: usize = 0;
    proof {
        assert(ops@.take(0) =~= Seq::<SamLOp>::empty());
        assert(old(bytes)@ + lops_bytes(ops@.take(0), blocks, at as int, table@) =~= old(bytes)@);
    }
    while i < ops.len()
        invariant
            0 <= i <= ops@.len(),
            pos@.len() == blocks.len(),
            starts@.len() == blocks.len() + 1,
            forall|b: int| 0 <= b < blocks.len() ==> #[trigger] pos@[b] == place_of(block_order(blocks), b),
            forall|b: int| 0 <= b < blocks.len() ==> #[trigger] pos@[b] < blocks.len(),
            forall|k: int| 0 <= k <= blocks.len() ==> #[trigger] starts@[k] == block_start(blocks, block_order(blocks), k),
            forall|k: int| 0 <= k <= blocks.len() ==> #[trigger] starts@[k] <= i32::MAX,
            at + lops_len(ops@) <= i32::MAX,
            forall|j: int| 0 <= j < ops@.len() ==> match #[trigger] ops@[j] {
                SamLOp::JmpToBlockIfX(b) => b < blocks.len(),
                SamLOp::Call(name) => start_of(table@, name@) is Some,
                SamLOp::Simple(_) => true,
            },
            cur == at + lops_len(ops@.take(i as int)),
            bytes@ == old(bytes)@ + lops_bytes(ops@.take(i as int), blocks, at as int, table@),
        decreases ops@.len() - i,
    {
        proof {
            lemma_lops_len_take(ops@, i as int);
            lemma_lops_len_mono(ops@, i + 1);
            lemma_lops_len_mono(ops@, i as int);
        }
        let op = link_op(&ops[i], pos, starts, cur, table, Ghost(blocks));
        let mut enc = op.encode();
        bytes.append(&mut enc);
        cur = cur + ops[i].len() as u64;
        i = i + 1;
    }
    assert(ops@.take(i as int) =~= ops@);
    cur
}

}
verus! {

/// The instructions of the blocks name blocks that exist and functions in the table.
pub open spec fn ops_resolvable(blocks: Seq<SamBlock>, table: Seq<(String, u32)>) -> bool {
    forall|i: int, j: int| 0 <= i < blocks.len() && 0 <= j < blocks[i].ops@.len() ==>
        match #[trigger] blocks[i].ops@[j] {
            SamLOp::JmpToBlockIfX(b) => b < blocks.len(),
            SamLOp::Call(name) => start_of(table, name@) is Some,
            SamLOp::Simple(_) => true,
        }
}

/// Appends the linked bytes of a function.
fn emit_fn(blocks: &Vec<SamBlock>, table: &Vec<(String, u32)>, bytes: &mut Vec<u8>)
    requires
        successors_ok(blocks@),
        fn_len(blocks@) <= i32::MAX,
        ops_resolvable(blocks@, table@),
    ensures
        final(bytes)@ == old(bytes)@ + blocks_bytes(blocks@, blocks@.len() as int, table@),
{
    let ghost bs = blocks@;
    let ghost n = bs.len() as int;
    let (order, pos, starts) = layout(blocks);
    let ghost ord = ints(order@);
    proof {
        lemma_block_order(bs);
        lemma_block_start_mono(bs, ord, 0, n);
        assert forall|k: int| 0 <= k <= n implies #[trigger] starts@[k] <= i32::MAX by {
            lemma_block_start_mono(bs, ord, k, n);
        }
        assert forall|b: int| 0 <= b < n implies #[trigger] pos@[b] < n by {
            assert(pos@[b] == place_of(ord, b));
            assert(ord.contains(b)) by {
                lemma_distinct_full(n, ord);
            }
        }
        assert(blocks_bytes(bs, 0, table@) =~= Seq::<u8>::empty());
        assert(old(bytes)@ + Seq::<u8>::empty() =~= old(bytes)@);
    }
    let mut k: usize = 0;
    while k < blocks.len()
        invariant
            0 <= k <= n,
            n == bs.len(),
            bs == blocks@,
            ord == block_order(bs),
            ord == ints(order@),
            distinct_in(n, ord),
            ord.len() == n,
            successors_ok(bs),
            ops_resolvable(bs, table@),
            fn_len(bs) <= i32::MAX,
            pos@.len() == n,
            starts@.len() == n + 1,
            forall|b: int| 0 <= b < n ==> #[trigger] pos@[b] == place_of(ord, b),
            forall|b: int| 0 <= b < n ==> #[trigger] pos@[b] < n,
            forall|j: int| 0 <= j <= n ==> #[trigger] starts@[j] == block_start(bs, ord, j),
            forall|j: int| 0 <= j <= n ==> #[trigger] starts@[j] <= i32::MAX,
            bytes@ == old(bytes)@ + blocks_bytes(bs, k as int, table@),
        decreases n - k,
    {
        let ghost b = ord[k as int];
        proof {
            assert(order@[k as int] as int == b);
            lemma_block_start_mono(bs, ord, k + 1, n);
            lemma_lops_len_nonneg(bs[b].ops@);
            assert forall|j: int| 0 <= j < bs[b].ops@.len() implies match #[trigger] bs[b].ops@[j] {
                SamLOp::JmpToBlockIfX(t) => t < n,
                SamLOp::Call(name) => start_of(table@, name@) is Some,
                SamLOp::Simple(_) => true,
            } by {
                assert(0 <= b < n);
                match bs[b].ops@[j] {
                    _ => {},
                }
            }
        }
        let ghost before = bytes@;
        let blk = &blocks[order[k]];
        let end = emit_ops(&blk.ops, &pos, &starts, starts[k], table, bytes, Ghost(bs));
        if needs_jmp(blocks, &order, k) {
            let next = blk.next_block_index.unwrap();
            let target = starts[pos[next]];
            let op = SamOp::Jmp(target as i32 - end as i32);
            let mut enc = op.encode();
            bytes.append(&mut enc);
        }
        proof {
            assert(bytes@ =~= before + block_bytes(bs, k as int, table@));
            assert(bytes@ =~= old(bytes)@ + blocks_bytes(bs, k + 1, table@));
        }
        k = k + 1;
    }
}

}
verus! {

proof fn lemma_fn_table(fns: Seq<SamFn>)
    ensures
        fn_table(fns).len() == fns.len(),
        forall|g: int| 0 <= g < fns.len() ==> (#[trigger] fn_table(fns)[g]).0 == fns[g].name,
    decreases fns.len(),
{
    if fns.len() > 0 {
        lemma_fn_table(fns.drop_last());
    }
}

proof fn lemma_start_of_some(t: Seq<(String, u32)>, name: Seq<char>, g: int)
    requires
        0 <= g < t.len(),
        t[g].0@ == name,
    ensures start_of(t, name) is Some,
    decreases g,
{
    if t[0].0@ != name {
        lemma_start_of_some(t.skip(1), name, g - 1);
    }
}

proof fn lemma_fn_len_nonneg(blocks: Seq<SamBlock>)
    ensures fn_len(blocks) >= 0,
{
    lemma_block_start_nonneg(blocks, block_order(blocks), blocks.len() as int);
}

proof fn lemma_fns_take(fns: Seq<SamFn>, i: int, t: Seq<(String, u32)>)
    requires 0 <= i < fns.len(),
    ensures
        fns_len(fns.take(i + 1)) == fns_len(fns.take(i)) + fn_len(fns[i].blocks@),
        fn_table(fns.take(i + 1)) == fn_table(fns.take(i)).push((fns[i].name, fns_len(fns.take(i)) as u32)),
        program_bytes(fns.take(i + 1), t) == program_bytes(fns.take(i), t) + fn_bytes(fns[i], t),
{
    assert(fns.take(i + 1).drop_last() =~= fns.take(i));
}

proof fn lemma_fns_len_mono(fns: Seq<SamFn>, i: int)
    requires 0 <= i <= fns.len(),
    ensures 0 <= fns_len(fns.take(i)) <= fns_len(fns),
    decreases fns.len() - i,
{
    if i == fns.len() {
        assert(fns.take(i) =~= fns);
        lemma_fns_len_nonneg(fns);
    } else {
        lemma_fns_take(fns, i, Seq::empty());
        lemma_fn_len_nonneg(fns[i].blocks@);
        lemma_fns_len_mono(fns, i + 1);
        lemma_fns_len_nonneg(fns.take(i));
    }
}

proof fn lemma_fns_len_nonneg(fns: Seq<SamFn>)
    ensures fns_len(fns) >= 0,
    decreases fns.len(),
{
    if fns.len() > 0 {
        lemma_fns_len_nonneg(fns.drop_last());
        lemma_fn_len_nonneg(fns.last().blocks@);
    }
}

/// The length of a function once linked.
fn fn_length(blocks: &Vec<SamBlock>) -> (r: u64)
    requires
        successors_ok(blocks@),
        fn_len(blocks@) <= i32::MAX,
    ensures r == fn_len(blocks@),
{
    let (_order, _pos, starts) = layout(blocks);
    starts[blocks.len()]
}

/// Links the functions, laid out one after the other in the given order: calls
/// go to the start of the function they name, and each function's blocks are
/// laid out so that a block is followed by its successor where possible, with a
/// jump to the successor where not.
pub fn link_sam_fns(fns: Vec<SamFn>) -> (r: CompiledSamProgram)
    requires linkable(fns@),
    ensures
        r.fn_start_poss@ == fn_table(fns@),
        r.bytes@ == program_bytes(fns@, fn_table(fns@)),
{
    let ghost fs = fns@;
    let mut fn_start_poss: Vec<(String, u32)> = Vec::new();
    let mut cur: u64 = 0;
    let mut i: usize = 0;
    assert(fs.take(0) =~= Seq::<SamFn>::empty());
    while i < fns.len()
        invariant
            0 <= i <= fs.len(),
            fs == fns@,
            linkable(fs),
            cur == fns_len(fs.take(i as int)),
            fn_start_poss@ == fn_table(fs.take(i as int)),
        decreases fs.len() - i,
    {
        proof {
            lemma_fns_take(fs, i as int, Seq::empty());
            lemma_fns_len_mono(fs, i + 1);
            assert(fn_ok(fs[i as int], fs));
        }
        fn_start_poss.push((fns[i].name.clone(), cur as u32));
        let l = fn_length(&fns[i].blocks);
        cur = cur + l;
        i = i + 1;
    }
    assert(fs.take(i as int) =~= fs);
    let ghost table = fn_start_poss@;
    proof { lemma_fn_table(fs); }
    let mut bytes: Vec<u8> = Vec::new();
    let mut i: usize = 0;
    while i < fns.len()
        invariant
            0 <= i <= fs.len(),
            fs == fns@,
            linkable(fs),
            table == fn_start_poss@,
            table == fn_table(fs),
            table.len() == fs.len(),
            forall|g: int| 0 <= g < fs.len() ==> (#[trigger] table[g]).0 == fs[g].name,
            bytes@ == program_bytes(fs.take(i as int), table),
        decreases fs.len() - i,
    {
        proof {
            lemma_fns_take(fs, i as int, table);
            let f = fs[i as int];
            assert(fn_ok(f, fs));
            assert forall|a: int, j: int| 0 <= a < f.blocks@.len() && 0 <= j < f.blocks@[a].ops@.len() implies
                match #[trigger] f.blocks@[a].ops@[j] {
                    SamLOp::JmpToBlockIfX(b) => b < f.blocks@.len(),
                    SamLOp::Call(name) => start_of(table, name@) is Some,
                    SamLOp::Simple(_) => true,
                } by {
                match f.blocks@[a].ops@[j] {
                    SamLOp::Call(name) => {
                        let g = choose|g: int| 0 <= g < fs.len() && #[trigger] fs[g].name@ == name@;
                        assert(table[g].0 == fs[g].name);
                        lemma_start_of_some(table, name@, g);
                    },
                    _ => {},
                }
            }
        }
        emit_fn(&fns[i].blocks, &fn_start_poss, &mut bytes);
        i = i + 1;
    }
    assert(fs.take(i as int) =~= fs);
    CompiledSamProgram { bytes, fn_start_poss }
}

}
verus! {

proof fn lemma_link_lop_len(op: SamLOp, blocks: Seq<SamBlock>, at: int, table: Seq<(String, u32)>)
    ensures op_encoding(link_lop(op, blocks, at, table)).len() == lop_len(op),
{
}

proof fn lemma_lops_bytes_len(ops: Seq<SamLOp>, blocks: Seq<SamBlock>, at: int, table: Seq<(String, u32)>)
    ensures lops_bytes(ops, blocks, at, table).len() == lops_len(ops),
    decreases ops.len(),
{
    if ops.len() > 0 {
        lemma_lops_bytes_len(ops.drop_last(), blocks, at, table);
        lemma_link_lop_len(ops.last(), blocks, at + lops_len(ops.drop_last()), table);
    }
}

proof fn lemma_blocks_bytes_len(blocks: Seq<SamBlock>, k: int, table: Seq<(String, u32)>)
    requires 0 <= k <= blocks.len(),
    ensures blocks_bytes(blocks, k, table).len() == block_start(blocks, block_order(blocks), k),
    decreases k,
{
    if k > 0 {
        lemma_blocks_bytes_len(blocks, k - 1, table);
        let order = block_order(blocks);
        lemma_lops_bytes_len(blocks[order[k - 1]].ops@, blocks, block_start(blocks, order, k - 1), table);
    }
}

proof fn lemma_blocks_bytes_prefix(blocks: Seq<SamBlock>, k: int, m: int, table: Seq<(String, u32)>)
    requires 0 <= k <= m <= blocks.len(),
    ensures blocks_bytes(blocks, m, table).subrange(0, blocks_bytes(blocks, k, table).len() as int) == blocks_bytes(blocks, k, table),
    decreases m - k,
{
    if k < m {
        lemma_blocks_bytes_prefix(blocks, k, m - 1, table);
        lemma_blocks_bytes_len(blocks, k, table);
        lemma_blocks_bytes_len(blocks, m - 1, table);
        lemma_block_start_mono(blocks, block_order(blocks), k, m - 1);
        let a = blocks_bytes(blocks, m - 1, table);
        let b = block_bytes(blocks, m - 1, table);
        assert((a + b).subrange(0, blocks_bytes(blocks, k, table).len() as int)
            =~= a.subrange(0, blocks_bytes(blocks, k, table).len() as int));
    } else {
        assert(blocks_bytes(blocks, m, table).subrange(0, blocks_bytes(blocks, k, table).len() as int) =~= blocks_bytes(blocks, k, table));
    }
}

/// Where each block goes: in the linked bytes of a function, the block laid
/// out `k`-th occupies the bytes from its start to the next block's start.
pub proof fn lemma_block_placement(blocks: Seq<SamBlock>, k: int, table: Seq<(String, u32)>)
    requires 0 <= k < blocks.len(),
    ensures
        blocks_bytes(blocks, blocks.len() as int, table).subrange(
            block_start(blocks, block_order(blocks), k), block_start(blocks, block_order(blocks), k + 1))
            == block_bytes(blocks, k, table),
{
    let n = blocks.len() as int;
    lemma_blocks_bytes_len(blocks, k, table);
    lemma_blocks_bytes_len(blocks, k + 1, table);
    lemma_blocks_bytes_prefix(blocks, k + 1, n, table);
    let whole = blocks_bytes(blocks, n, table);
    let upto = blocks_bytes(blocks, k + 1, table);
    assert(upto == blocks_bytes(blocks, k, table) + block_bytes(blocks, k, table));
    let s = block_start(blocks, block_order(blocks), k);
    let e = block_start(blocks, block_order(blocks), k + 1);
    lemma_block_start_mono(blocks, block_order(blocks), k, k + 1);
    lemma_block_start_nonneg(blocks, block_order(blocks), k);
    lemma_blocks_bytes_len(blocks, n, table);
    lemma_block_start_mono(blocks, block_order(blocks), k + 1, n);
    assert(whole.subrange(0, e) == upto);
    assert(whole.subrange(s, e) =~= whole.subrange(0, e).subrange(s, e));
    assert(upto.subrange(s, e) =~= block_bytes(blocks, k, table));
}

}
