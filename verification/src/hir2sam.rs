use crate::hir::{fndecl_v, fndecls_v, Program, BinOp, FnArgDecl, BinOpKind, Expr, ExprV, FnCall, FnDecl, FnDeclV, Stmt, StmtV, VarType, expr_v, exprs_v, stmt_v, stmts_v, args_v, distinct_names};
use crate::linker::{SamFn, SamLOp};
use crate::sam::{exec_sop, read32, read8, SamM, SamSOp};
use crate::bf::str_chars;
use vstd::prelude::*;

verus! {

/// A straight run of instructions, and the block that control passes to after it
/// (`None`: the run ends in a return or a halt).
#[derive(Debug)]
pub struct SamBlock {
    pub ops: Vec<SamLOp>,
    pub next_block_index: Option<usize>,
}

/// The blocks of one function, in the order they were created.
#[derive(Debug)]
pub struct SamBlockArena {
    pub blocks: Vec<SamBlock>,
}

/// Appends to one block of an arena.
pub struct SamBlockWriter<'o> {
    pub arena: &'o mut SamBlockArena,
    pub block_index: usize,
}

impl SamBlockArena {
    /// Adds an empty block with no successor, and returns a writer for it.
    pub fn new_block_writer(&mut self) -> (r: SamBlockWriter)
        ensures
            r.block_index == old(self).blocks@.len(),
            r.arena.blocks@.len() == old(self).blocks@.len() + 1,
            r.arena.blocks@.drop_last() == old(self).blocks@,
            r.arena.blocks@.last().ops@.len() == 0,
            r.arena.blocks@.last().next_block_index is None,
            final(self).blocks@ == final(r.arena).blocks@,
    {
        let new_block_index = self.blocks.len();
        self.blocks.push(SamBlock { ops: Vec::new(), next_block_index: None });
        assert(self.blocks@.drop_last() =~= old(self).blocks@);
        SamBlockWriter { arena: self, block_index: new_block_index }
    }
}

impl<'o> SamBlockWriter<'o> {
    /// Appends `op` to the block.
    pub fn add_op(&mut self, op: SamLOp)
        requires old(self).block_index < old(self).arena.blocks@.len(),
        ensures
            final(self).block_index == old(self).block_index,
            final(self).arena.blocks@.len() == old(self).arena.blocks@.len(),
            forall|j: int| 0 <= j < old(self).arena.blocks@.len() && j != old(self).block_index
                ==> #[trigger] final(self).arena.blocks@[j] == old(self).arena.blocks@[j],
            final(self).arena.blocks@[old(self).block_index as int].ops@
                == old(self).arena.blocks@[old(self).block_index as int].ops@.push(op),
            final(self).arena.blocks@[old(self).block_index as int].next_block_index
                == old(self).arena.blocks@[old(self).block_index as int].next_block_index,
            *final(old(self).arena) == *final(final(self).arena),
    {
        let i = self.block_index;
        let mut blk = self.arena.blocks.remove(i);
        blk.ops.push(op);
        self.arena.blocks.insert(i, blk);
    }

    /// Sets the block that control passes to after this one.
    pub fn set_next_block_index(&mut self, next_block_index: Option<usize>)
        requires old(self).block_index < old(self).arena.blocks@.len(),
        ensures
            final(self).block_index == old(self).block_index,
            final(self).arena.blocks@.len() == old(self).arena.blocks@.len(),
            forall|j: int| 0 <= j < old(self).arena.blocks@.len() && j != old(self).block_index
                ==> #[trigger] final(self).arena.blocks@[j] == old(self).arena.blocks@[j],
            final(self).arena.blocks@[old(self).block_index as int].ops@
                == old(self).arena.blocks@[old(self).block_index as int].ops@,
            final(self).arena.blocks@[old(self).block_index as int].next_block_index == next_block_index,
            *final(old(self).arena) == *final(final(self).arena),
    {
        let i = self.block_index;
        let mut blk = self.arena.blocks.remove(i);
        blk.next_block_index = next_block_index;
        self.arena.blocks.insert(i, blk);
    }

    /// A writer for the same block that borrows this one.
    pub fn reborrow_mut(&mut self) -> (r: SamBlockWriter)
        ensures
            r.block_index == old(self).block_index,
            *r.arena == *old(self).arena,
            final(self).block_index == old(self).block_index,
            *final(self).arena == *final(r.arena),
            *final(old(self).arena) == *final(final(self).arena),
    {
        SamBlockWriter { arena: &mut *self.arena, block_index: self.block_index }
    }
}


/// The value of a string of decimal digits.
pub open spec fn decimal_value(d: Seq<char>) -> int
    decreases d.len(),
{
    if d.len() == 0 {
        0
    } else {
        10 * decimal_value(d.drop_last()) + (d.last() as u32 - 48)
    }
}

/// Whether every character is an ASCII decimal digit.
pub open spec fn all_digits(d: Seq<char>) -> bool {
    forall|i: int| 0 <= i < d.len() ==> 48 <= #[trigger] d[i] as u32 && d[i] as u32 <= 57
}

proof fn lemma_prefix_value(d: Seq<char>, i: int)
    requires
        all_digits(d),
        0 <= i <= d.len(),
    ensures
        0 <= decimal_value(d.take(i)) <= decimal_value(d),
    decreases d.len() - i,
{
    if i < d.len() {
        lemma_prefix_value(d, i + 1);
        assert(d.take(i + 1).drop_last() =~= d.take(i));
        assert(d.take(i + 1).last() == d[i]);
        assert(48 <= d[i] as u32 <= 57);
    } else {
        assert(d.take(i) =~= d);
        lemma_value_nonneg(d);
    }
}

proof fn lemma_value_nonneg(d: Seq<char>)
    requires all_digits(d),
    ensures decimal_value(d) >= 0,
    decreases d.len(),
{
    if d.len() > 0 {
        assert(all_digits(d.drop_last()));
        lemma_value_nonneg(d.drop_last());
        assert(48 <= d[d.len() - 1] as u32);
    }
}

/// The value of a literal's digits, which must fit in 32 bits.
fn literal_value(digits: &String) -> (r: u32)
    requires
        all_digits(digits@),
        decimal_value(digits@) < 0x1_0000_0000,
    ensures
        r == decimal_value(digits@),
{
    let cs = str_chars(digits.as_str());
    let mut v: u64 = 0;
    let mut i: usize = 0;
    while i < cs.len()
        invariant
            cs@ == digits@,
            all_digits(cs@),
            decimal_value(cs@) < 0x1_0000_0000,
            0 <= i <= cs.len(),
            v == decimal_value(cs@.take(i as int)),
        decreases cs.len() - i,
    {
        proof {
            lemma_prefix_value(cs@, i + 1);
            assert(cs@.take(i + 1).drop_last() =~= cs@.take(i as int));
            assert(cs@.take(i + 1).last() == cs@[i as int]);
            assert(48 <= cs@[i as int] as u32 <= 57);
        }
        let digit = (cs[i] as u32 - 48) as u64;
        v = v * 10 + digit;
        i = i + 1;
    }
    assert(cs@.take(i as int) =~= cs@);
    v as u32
}

/// The value of a literal as a 32-bit word; the value must fit.
pub fn literal_to_u32(digits: &String) -> (r: u32)
    requires
        all_digits(digits@),
        decimal_value(digits@) < 0x1_0000_0000,
    ensures
        r == decimal_value(digits@),
{
    literal_value(digits)
}

/// The value of a literal as a byte; the value must fit.
pub fn literal_to_u8(digits: &String) -> (r: u8)
    requires
        all_digits(digits@),
        decimal_value(digits@) < 0x100,
    ensures
        r == decimal_value(digits@),
{
    literal_value(digits) as u8
}

/// How many bytes a variable of a type takes.
pub open spec fn type_size_spec(typ: VarType) -> nat {
    match typ {
        VarType::U8 => 1,
        VarType::U32 => 4,
    }
}

pub fn type_size(typ: VarType) -> (r: u32)
    ensures
        r == type_size_spec(typ),
{
    match typ {
        VarType::U8 => 1,
        VarType::U32 => 4,
    }
}

/// A variable of a function's frame: its name, type and offset in the frame.
#[derive(Debug)]
pub struct LocalVar {
    pub name: String,
    pub typ: VarType,
    pub location: u32,
}

/// The variables of a frame, and the size of the frame so far. A later
/// variable hides an earlier one of the same name.
#[derive(Debug)]
pub struct Locals {
    pub locals: Vec<LocalVar>,
    pub cur_stack_size: u32,
}

/// Whether variable `i` is the last of the name `name`.
pub open spec fn last_named(ls: Seq<LocalVar>, name: Seq<char>, i: int) -> bool {
    &&& 0 <= i < ls.len()
    &&& ls[i].name@ == name
    &&& forall|j: int| i < j < ls.len() ==> #[trigger] ls[j].name@ != name
}

impl Locals {
    /// The variable of a name; the name must be known.
    pub fn get(&self, name: &String) -> (r: &LocalVar)
        requires
            exists|i: int| 0 <= i < self.locals@.len() && #[trigger] self.locals@[i].name@ == name@,
        ensures
            exists|i: int| last_named(self.locals@, name@, i) && *r == self.locals@[i],
    {
        let mut k: usize = self.locals.len();
        while k > 0
            invariant
                0 <= k <= self.locals@.len(),
                forall|j: int| k <= j < self.locals@.len() ==> #[trigger] self.locals@[j].name@ != name@,
                exists|i: int| 0 <= i < self.locals@.len() && #[trigger] self.locals@[i].name@ == name@,
            decreases k,
        {
            k = k - 1;
            if same_text(&self.locals[k].name, name) {
                assert(last_named(self.locals@, name@, k as int));
                return &self.locals[k];
            }
        }
        proof {
            let i = choose|i: int| 0 <= i < self.locals@.len() && #[trigger] self.locals@[i].name@ == name@;
            assert(self.locals@[i].name@ != name@);
        }
        &self.locals[0]
    }

    /// Adds a variable at the end of the frame, named if a name is given,
    /// and returns where it is.
    pub fn create(&mut self, name: Option<String>, typ: VarType) -> (r: (VarType, u32))
        requires
            old(self).cur_stack_size + type_size_spec(typ) <= u32::MAX,
        ensures
            r == (typ, old(self).cur_stack_size),
            final(self).cur_stack_size == old(self).cur_stack_size + type_size_spec(typ),
            match name {
                Some(n) => final(self).locals@ == old(self).locals@.push(
                    LocalVar { name: n, typ, location: old(self).cur_stack_size },
                ),
                None => final(self).locals@ == old(self).locals@,
            },
    {
        let location = self.cur_stack_size;
        match name {
            Some(n) => {
                self.locals.push(LocalVar { name: n, typ, location });
            },
            None => {},
        }
        self.cur_stack_size = self.cur_stack_size + type_size(typ);
        (typ, location)
    }
}

/// Whether the text of two strings is the same.
fn same_text(a: &String, b: &String) -> (r: bool)
    ensures
        r == (a@ == b@),
{
    let ac = str_chars(a.as_str());
    let bc = str_chars(b.as_str());
    if ac.len() != bc.len() {
        return false;
    }
    let mut i: usize = 0;
    while i < ac.len()
        invariant
            ac@ == a@,
            bc@ == b@,
            ac.len() == bc.len(),
            0 <= i <= ac.len(),
            forall|j: int| 0 <= j < i ==> ac@[j] == bc@[j],
        decreases ac.len() - i,
    {
        if ac[i] != bc[i] {
            assert(a@[i as int] != b@[i as int]);
            return false;
        }
        i = i + 1;
    }
    assert(ac@ =~= bc@);
    true
}


/// An unlinked instruction as a mathematical value.
pub enum LOpV {
    Simple(SamSOp),
    Call(Seq<char>),
    JmpToBlockIfX(usize),
}

pub open spec fn lop_v(op: SamLOp) -> LOpV {
    match op {
        SamLOp::Simple(s) => LOpV::Simple(s),
        SamLOp::Call(n) => LOpV::Call(n@),
        SamLOp::JmpToBlockIfX(i) => LOpV::JmpToBlockIfX(i),
    }
}

pub open spec fn lops_v(ops: Seq<SamLOp>) -> Seq<LOpV> {
    ops.map_values(|op: SamLOp| lop_v(op))
}

/// The instruction that moves `B` from `from` to `to`, if they differ.
pub open spec fn goto_b_ops(from: u32, to: u32) -> Seq<LOpV> {
    if from < to {
        seq![LOpV::Simple(SamSOp::AddConstToB((to - from) as u32))]
    } else if to < from {
        seq![LOpV::Simple(SamSOp::SubConstFromB((from - to) as u32))]
    } else {
        Seq::empty()
    }
}

/// Where the value of an expression goes: nowhere, a variable of the frame
/// (its type and offset), `A` or `X`.
#[derive(Debug, Copy, Clone, PartialEq, Eq, Structural)]
pub enum Dest {
    Nowhere,
    Local(VarType, u32),
    A,
    X,
}

/// The type of an expression: a literal fits either type; a call of a
/// function without a result has the unit type.
#[derive(Debug, Copy, Clone, PartialEq, Eq, Structural)]
pub enum ExprTy {
    Free,
    Unit,
    Of(VarType),
}

/// A program that the translator does not accept: an unknown variable or
/// function, types that do not agree, a division, a literal too large for its
/// type, a call with the wrong number of arguments, or a frame larger than the
/// 32-bit offsets reach.
#[derive(Debug, Copy, Clone, PartialEq, Eq, Structural)]
pub enum Hir2SamError {
    Rejected,
}

/// The variables as values: name, type and offset.
pub open spec fn locals_v(ls: Seq<LocalVar>) -> Seq<(Seq<char>, VarType, u32)> {
    ls.map_values(|l: LocalVar| (l.name@, l.typ, l.location))
}

/// The type and offset of the last variable of a name.
pub open spec fn find_local(ls: Seq<(Seq<char>, VarType, u32)>, name: Seq<char>) -> Option<(VarType, u32)>
    decreases ls.len(),
{
    if ls.len() == 0 {
        None
    } else if ls.last().0 == name {
        Some((ls.last().1, ls.last().2))
    } else {
        find_local(ls.drop_last(), name)
    }
}

/// The last function of a name.
pub open spec fn find_fn(ds: Seq<FnDeclV>, name: Seq<char>) -> Option<FnDeclV>
    decreases ds.len(),
{
    if ds.len() == 0 {
        None
    } else if ds.last().name == name {
        Some(ds.last())
    } else {
        find_fn(ds.drop_last(), name)
    }
}

/// The size of a result: nothing for a function without one.
pub open spec fn ret_size(ret: Option<VarType>) -> nat {
    match ret {
        Some(t) => type_size_spec(t),
        None => 0,
    }
}

/// The type of an expression, where it has one.
pub open spec fn ty_of(ls: Seq<(Seq<char>, VarType, u32)>, ds: Seq<FnDeclV>, e: ExprV) -> Option<ExprTy>
    decreases e,
{
    match e {
        ExprV::Literal(_) => Some(ExprTy::Free),
        ExprV::VarRef(x) => match find_local(ls, x) {
            Some((t, _)) => Some(ExprTy::Of(t)),
            None => None,
        },
        ExprV::BinOp(_, a, b) => match (ty_of(ls, ds, *a), ty_of(ls, ds, *b)) {
            (Some(ta), Some(tb)) => if ta == ExprTy::Free {
                Some(tb)
            } else if tb == ExprTy::Free {
                Some(ta)
            } else if ta == tb {
                Some(ta)
            } else {
                None
            },
            _ => None,
        },
        ExprV::FnCall(n, _) => match find_fn(ds, n) {
            Some(d) => Some(match d.ret {
                Some(t) => ExprTy::Of(t),
                None => ExprTy::Unit,
            }),
            None => None,
        },
    }
}

/// `op` at offset `loc`: `B` moves there first.
pub open spec fn at_ops(b: u32, loc: u32, op: SamSOp) -> Seq<LOpV> {
    goto_b_ops(b, loc).push(LOpV::Simple(op))
}

pub open spec fn read_op(t: VarType) -> SamSOp {
    if t == VarType::U8 { SamSOp::ReadXAtB } else { SamSOp::ReadAAtB }
}

pub open spec fn write_op(t: VarType) -> SamSOp {
    if t == VarType::U8 { SamSOp::WriteXAtB } else { SamSOp::WriteAAtB }
}

/// The instructions of an operator, on the left operand at `B` and the right
/// one in `X` (bytes) or `A` (words), leaving the result there; none for a
/// division.
pub open spec fn binop_ops(kind: BinOpKind, t: VarType) -> Option<Seq<LOpV>> {
    match kind {
        BinOpKind::Plus => Some(if t == VarType::U8 {
            seq![LOpV::Simple(SamSOp::AddU8AtBToX)]
        } else {
            seq![LOpV::Simple(SamSOp::AddU32AtBToA)]
        }),
        BinOpKind::Minus => Some(if t == VarType::U8 {
            seq![LOpV::Simple(SamSOp::NegX), LOpV::Simple(SamSOp::AddU8AtBToX)]
        } else {
            seq![LOpV::Simple(SamSOp::NegA), LOpV::Simple(SamSOp::AddU32AtBToA)]
        }),
        BinOpKind::Mul => Some(if t == VarType::U8 {
            seq![LOpV::Simple(SamSOp::MulU8AtBToX)]
        } else {
            seq![LOpV::Simple(SamSOp::MulU32AtBToA)]
        }),
        BinOpKind::Div => None,
    }
}

/// The type in which an operation is computed, given where its value goes.
pub open spec fn binop_type(mt: ExprTy, dest: Dest) -> Option<VarType> {
    match dest {
        Dest::Nowhere => match mt {
            ExprTy::Of(t) => Some(t),
            _ => None,
        },
        Dest::X => match mt {
            ExprTy::Of(t) => if t == VarType::U8 { Some(VarType::U8) } else { None },
            ExprTy::Unit => None,
            ExprTy::Free => Some(VarType::U8),
        },
        Dest::A => match mt {
            ExprTy::Of(t) => if t == VarType::U32 { Some(VarType::U32) } else { None },
            ExprTy::Unit => None,
            ExprTy::Free => Some(VarType::U32),
        },
        Dest::Local(lt, _) => match mt {
            ExprTy::Of(t) => if t == lt { Some(lt) } else { None },
            ExprTy::Unit => None,
            ExprTy::Free => Some(lt),
        },
    }
}

/// Whether a name is one of the printing functions.
pub open spec fn is_print_name(n: Seq<char>) -> bool {
    n == "print"@ || n == "println"@ || n == "print_char"@
}

/// The instructions that print the value in `X` (bytes) or `A` (words).
pub open spec fn print_ops(n: Seq<char>, t: VarType) -> Option<Seq<LOpV>> {
    if t == VarType::U8 {
        if n == "print"@ {
            Some(seq![LOpV::Simple(SamSOp::MoveXToA), LOpV::Simple(SamSOp::PrintA)])
        } else if n == "println"@ {
            Some(seq![LOpV::Simple(SamSOp::MoveXToA), LOpV::Simple(SamSOp::PrintA),
                LOpV::Simple(SamSOp::SetX(10)), LOpV::Simple(SamSOp::PrintCharX)])
        } else {
            Some(seq![LOpV::Simple(SamSOp::PrintCharX)])
        }
    } else {
        if n == "print"@ {
            Some(seq![LOpV::Simple(SamSOp::PrintA)])
        } else if n == "println"@ {
            Some(seq![LOpV::Simple(SamSOp::PrintA), LOpV::Simple(SamSOp::SetX(10)),
                LOpV::Simple(SamSOp::PrintCharX)])
        } else {
            None
        }
    }
}

/// Moves a value of type `vt` at offset `vl` to `dest`.
pub open spec fn store_ops(b: u32, vt: Option<VarType>, vl: u32, dest: Dest) -> Option<(Seq<LOpV>, u32)> {
    match dest {
        Dest::Nowhere => Some((Seq::empty(), b)),
        Dest::X => if vt == Some(VarType::U8) { Some((at_ops(b, vl, SamSOp::ReadXAtB), vl)) } else { None },
        Dest::A => if vt == Some(VarType::U32) { Some((at_ops(b, vl, SamSOp::ReadAAtB), vl)) } else { None },
        Dest::Local(t, loc) => if vt != Some(t) {
            None
        } else if vl == loc {
            Some((Seq::empty(), b))
        } else {
            Some((at_ops(b, vl, read_op(t)) + at_ops(vl, loc, write_op(t)), loc))
        },
    }
}

/// The code of an expression whose value goes to `dest`, with the variables
/// `ls`, the frame `size` bytes so far, the functions `ds` and `B` at offset
/// `b`: the instructions and where `B` is afterwards. `None` where the
/// translator rejects the expression.
pub open spec fn g_eval(ls: Seq<(Seq<char>, VarType, u32)>, size: u32, ds: Seq<FnDeclV>, b: u32, e: ExprV, dest: Dest)
    -> Option<(Seq<LOpV>, u32)>
    decreases e, 2int, 0int,
{
    match e {
        ExprV::Literal(d) => if !all_digits(d) {
            None
        } else {
            match dest {
                Dest::Nowhere => Some((Seq::empty(), b)),
                Dest::X => if decimal_value(d) < 0x100 {
                    Some((seq![LOpV::Simple(SamSOp::SetX(decimal_value(d) as u8))], b))
                } else {
                    None
                },
                Dest::A => if decimal_value(d) < 0x1_0000_0000 {
                    Some((seq![LOpV::Simple(SamSOp::SetA(decimal_value(d) as u32))], b))
                } else {
                    None
                },
                Dest::Local(t, loc) => if t == VarType::U8 {
                    if decimal_value(d) < 0x100 {
                        Some((seq![LOpV::Simple(SamSOp::SetX(decimal_value(d) as u8))]
                            + at_ops(b, loc, SamSOp::WriteXAtB), loc))
                    } else {
                        None
                    }
                } else {
                    if decimal_value(d) < 0x1_0000_0000 {
                        Some((seq![LOpV::Simple(SamSOp::SetA(decimal_value(d) as u32))]
                            + at_ops(b, loc, SamSOp::WriteAAtB), loc))
                    } else {
                        None
                    }
                },
            }
        },
        ExprV::VarRef(x) => match find_local(ls, x) {
            None => None,
            Some((vt, vl)) => store_ops(b, Some(vt), vl, dest),
        },
        ExprV::BinOp(kind, a, bx) => match ty_of(ls, ds, e) {
            None => None,
            Some(mt) => match binop_type(mt, dest) {
                None => None,
                Some(typ) => if size + type_size_spec(typ) > u32::MAX {
                    None
                } else {
                    let size2 = (size + type_size_spec(typ)) as u32;
                    match g_eval(ls, size2, ds, b, *a, Dest::Local(typ, size)) {
                        None => None,
                        Some((o1, b1)) => match g_eval(ls, size2, ds, b1, *bx,
                            if typ == VarType::U8 { Dest::X } else { Dest::A }) {
                            None => None,
                            Some((o2, b2)) => match binop_ops(kind, typ) {
                                None => None,
                                Some(o3) => {
                                    let o = o1 + o2 + goto_b_ops(b2, size) + o3;
                                    match dest {
                                        Dest::Local(lt, loc) => Some((o + at_ops(size, loc, write_op(typ)), loc)),
                                        _ => Some((o, size)),
                                    }
                                },
                            },
                        },
                    }
                },
            },
        },
        ExprV::FnCall(n, args) => g_call(ls, size, ds, b, n, args, dest),
    }
}

/// The code of a call.
pub open spec fn g_call(ls: Seq<(Seq<char>, VarType, u32)>, size: u32, ds: Seq<FnDeclV>, b: u32, n: Seq<char>, args: Seq<ExprV>, dest: Dest)
    -> Option<(Seq<LOpV>, u32)>
    decreases args, 1int, 0int,
{
    if is_print_name(n) {
        if args.len() != 1 {
            None
        } else {
            match ty_of(ls, ds, args[0]) {
                None => None,
                Some(ExprTy::Unit) => None,
                Some(t0) => {
                    let typ = match t0 { ExprTy::Of(t) => t, _ => VarType::U32 };
                    match print_ops(n, typ) {
                        None => None,
                        Some(po) => match g_eval(ls, size, ds, b, args[0],
                            if typ == VarType::U8 { Dest::X } else { Dest::A }) {
                            None => None,
                            Some((o, b1)) => Some((o + po, b1)),
                        },
                    }
                },
            }
        }
    } else {
        match find_fn(ds, n) {
            None => None,
            Some(d) => if d.args.len() != args.len() || size + ret_size(d.ret) > u32::MAX {
                None
            } else {
                let s1 = (size + ret_size(d.ret)) as u32;
                match g_args(ls, s1, ds, b, args, d.args, 0) {
                    None => None,
                    Some((o1, b1, s2)) => if s2 + 4 > u32::MAX {
                        None
                    } else {
                        let o2 = o1 + goto_b_ops(b1, s2).push(LOpV::Call(d.name));
                        match store_ops(s2, d.ret, size, dest) {
                            None => None,
                            Some((o3, b3)) => Some((o2 + o3, b3)),
                        }
                    },
                }
            },
        }
    }
}

/// The code that puts arguments `i..` of a call in the frame, each in a
/// new variable of its parameter's type: the instructions, where `B` is and
/// the size of the frame afterwards.
pub open spec fn g_args(ls: Seq<(Seq<char>, VarType, u32)>, size: u32, ds: Seq<FnDeclV>, b: u32, args: Seq<ExprV>,
    params: Seq<(Seq<char>, VarType)>, i: int) -> Option<(Seq<LOpV>, u32, u32)>
    decreases args, 0int, args.len() - i,
{
    if i < 0 || i >= args.len() || i >= params.len() {
        Some((Seq::empty(), b, size))
    } else {
        let t = params[i].1;
        if size + type_size_spec(t) > u32::MAX {
            None
        } else {
            let s1 = (size + type_size_spec(t)) as u32;
            match g_eval(ls, s1, ds, b, args[i], Dest::Local(t, size)) {
                None => None,
                Some((o1, b1)) => match g_args(ls, s1, ds, b1, args, params, i + 1) {
                    None => None,
                    Some((o2, b2, s2)) => Some((o1 + o2, b2, s2)),
                },
            }
        }
    }
}

proof fn lemma_exprs_v_index(es: Seq<Expr>)
    ensures
        exprs_v(es).len() == es.len(),
        forall|i: int| 0 <= i < es.len() ==> #[trigger] exprs_v(es)[i] == expr_v(es[i]),
    decreases es.len(),
{
    if es.len() > 0 {
        lemma_exprs_v_index(es.drop_first());
        assert forall|i: int| 0 <= i < es.len() implies #[trigger] exprs_v(es)[i] == expr_v(es[i]) by {
            if i > 0 {
                assert(es.drop_first()[i - 1] == es[i]);
            }
        }
    }
}

/// Whether the string is `lit`.
fn text_is(s: &String, lit: &str) -> (r: bool)
    ensures
        r == (s@ == lit@),
{
    let a = str_chars(s.as_str());
    let b = str_chars(lit);
    if a.len() != b.len() {
        return false;
    }
    let mut i: usize = 0;
    while i < a.len()
        invariant
            a@ == s@,
            b@ == lit@,
            a.len() == b.len(),
            0 <= i <= a.len(),
            forall|j: int| 0 <= j < i ==> a@[j] == b@[j],
        decreases a.len() - i,
    {
        if a[i] != b[i] {
            assert(s@[i as int] != lit@[i as int]);
            return false;
        }
        i = i + 1;
    }
    assert(a@ =~= b@);
    true
}

/// Whether every character is a decimal digit.
fn is_digits(d: &String) -> (r: bool)
    ensures
        r == all_digits(d@),
{
    let cs = str_chars(d.as_str());
    let mut i: usize = 0;
    while i < cs.len()
        invariant
            cs@ == d@,
            0 <= i <= cs.len(),
            forall|j: int| 0 <= j < i ==> 48 <= #[trigger] cs@[j] as u32 && cs@[j] as u32 <= 57,
        decreases cs.len() - i,
    {
        let c = cs[i] as u32;
        if c < 48 || c > 57 {
            return false;
        }
        i = i + 1;
    }
    true
}

/// Whether the value of the digits is below `limit`.
fn literal_below(d: &String, limit: u64) -> (r: bool)
    requires
        all_digits(d@),
        0 < limit <= 0x1_0000_0000,
    ensures
        r == (decimal_value(d@) < limit),
{
    let cs = str_chars(d.as_str());
    let mut v: u64 = 0;
    let mut i: usize = 0;
    while i < cs.len()
        invariant
            cs@ == d@,
            all_digits(cs@),
            0 < limit <= 0x1_0000_0000,
            0 <= i <= cs.len(),
            v == if decimal_value(cs@.take(i as int)) < limit { decimal_value(cs@.take(i as int)) } else { limit as int },
            decimal_value(cs@.take(i as int)) >= 0,
        decreases cs.len() - i,
    {
        proof {
            assert(cs@.take(i + 1).drop_last() =~= cs@.take(i as int));
            assert(cs@.take(i + 1).last() == cs@[i as int]);
            assert(48 <= cs@[i as int] as u32 <= 57);
        }
        let digit = (cs[i] as u32 - 48) as u64;
        let w = v * 10 + digit;
        v = if w < limit { w } else { limit };
        i = i + 1;
    }
    assert(cs@.take(i as int) =~= cs@);
    v < limit
}

/// The code of a statement: the instructions, where `B` is, and the
/// variables and frame size afterwards.
pub open spec fn g_stmt(ls: Seq<(Seq<char>, VarType, u32)>, size: u32, ds: Seq<FnDeclV>, b: u32, st: StmtV)
    -> Option<(Seq<LOpV>, u32, Seq<(Seq<char>, VarType, u32)>, u32)>
{
    match st {
        StmtV::VarDecl(name, t, init) => if size + type_size_spec(t) > u32::MAX {
            None
        } else {
            let ls2 = ls.push((name, t, size));
            let s2 = (size + type_size_spec(t)) as u32;
            match g_eval(ls2, s2, ds, b, init, Dest::Local(t, size)) {
                None => None,
                Some((o, b1)) => Some((o, b1, ls2, s2)),
            }
        },
        StmtV::VarAssign(name, e) => match find_local(ls, name) {
            None => None,
            Some((t, loc)) => match g_eval(ls, size, ds, b, e, Dest::Local(t, loc)) {
                None => None,
                Some((o, b1)) => Some((o, b1, ls, size)),
            },
        },
        StmtV::FnCall(n, args) => match g_call(ls, size, ds, b, n, args, Dest::Nowhere) {
            None => None,
            Some((o, b1)) => Some((o, b1, ls, size)),
        },
    }
}

/// The code of statements `i..`, one after the other.
pub open spec fn g_stmts(ls: Seq<(Seq<char>, VarType, u32)>, size: u32, ds: Seq<FnDeclV>, b: u32, sts: Seq<StmtV>, i: int)
    -> Option<(Seq<LOpV>, u32, Seq<(Seq<char>, VarType, u32)>, u32)>
    decreases sts.len() - i,
{
    if i < 0 || i >= sts.len() {
        Some((Seq::empty(), b, ls, size))
    } else {
        match g_stmt(ls, size, ds, b, sts[i]) {
            None => None,
            Some((o1, b1, ls1, s1)) => match g_stmts(ls1, s1, ds, b1, sts, i + 1) {
                None => None,
                Some((o2, b2, ls2, s2)) => Some((o1 + o2, b2, ls2, s2)),
            },
        }
    }
}

/// The parameters `i..` as variables of the frame, after those in `ls`.
pub open spec fn g_params(params: Seq<(Seq<char>, VarType)>, i: int, ls: Seq<(Seq<char>, VarType, u32)>, size: u32)
    -> Option<(Seq<(Seq<char>, VarType, u32)>, u32)>
    decreases params.len() - i,
{
    if i < 0 || i >= params.len() {
        Some((ls, size))
    } else if size + type_size_spec(params[i].1) > u32::MAX {
        None
    } else {
        g_params(params, i + 1, ls.push((params[i].0, params[i].1, size)), (size + type_size_spec(params[i].1)) as u32)
    }
}

/// The code of a function: its frame holds the result, the parameters and
/// the return address, `B` starts at the return address; the statements
/// follow, then the return.
pub open spec fn fn_code(ds: Seq<FnDeclV>, d: FnDeclV) -> Option<Seq<LOpV>> {
    match g_params(d.args, 0, Seq::empty(), ret_size(d.ret) as u32) {
        None => None,
        Some((ls, s1)) => if s1 + 4 > u32::MAX {
            None
        } else {
            match g_stmts(ls, (s1 + 4) as u32, ds, s1, d.stmts, 0) {
                None => None,
                Some((o, b1, _, _)) => Some(o + goto_b_ops(b1, s1).push(LOpV::Simple(SamSOp::Ret))),
            }
        },
    }
}

/// `f` is the translation of `d`: one block holding its code, and the sizes
/// of its arguments and result.
pub open spec fn fn_translated(f: SamFn, ds: Seq<FnDeclV>, d: FnDeclV) -> bool {
    &&& f.name@ == d.name
    &&& f.arg_sizes@ == d.args.map_values(|p: (Seq<char>, VarType)| type_size_spec(p.1) as u32)
    &&& f.ret_size == ret_size(d.ret)
    &&& f.blocks@.len() == 1
    &&& f.blocks@[0].next_block_index is None
    &&& fn_code(ds, d) is Some
    &&& lops_v(f.blocks@[0].ops@) == fn_code(ds, d).unwrap()
}

/// Writes the instructions of one function into its blocks, keeping track
/// of where `B` points in the frame.
pub struct SamCpu<'a, 'o> {
    pub locals: Locals,
    pub out: SamBlockWriter<'o>,
    pub cur_b_offset: u32,
    pub fn_decls: &'a Vec<FnDecl>,
}

/// `after` is `before` with `ops` appended to the current block, and nothing
/// else of the blocks changed.
pub open spec fn blocks_emitted(before: &SamCpu, after: &SamCpu, ops: Seq<LOpV>) -> bool {
    let i = before.out.block_index as int;
    let b0 = before.out.arena.blocks@;
    let b1 = after.out.arena.blocks@;
    &&& after.out.block_index == before.out.block_index
    &&& b1.len() == b0.len()
    &&& forall|j: int| 0 <= j < b0.len() && j != i ==> #[trigger] b1[j] == b0[j]
    &&& lops_v(b1[i].ops@) == lops_v(b0[i].ops@) + ops
    &&& b1[i].next_block_index == b0[i].next_block_index
    &&& after.fn_decls == before.fn_decls
}

/// `after` is `before` with `ops` appended to the current block, and nothing
/// else of the blocks or the variables changed.
pub open spec fn emitted(before: &SamCpu, after: &SamCpu, ops: Seq<LOpV>) -> bool {
    &&& blocks_emitted(before, after, ops)
    &&& after.locals == before.locals
}

pub proof fn lemma_blocks_emitted_trans(a: &SamCpu, b: &SamCpu, c: &SamCpu, x: Seq<LOpV>, y: Seq<LOpV>)
    requires
        blocks_emitted(a, b, x),
        blocks_emitted(b, c, y),
    ensures
        blocks_emitted(a, c, x + y),
{
    let i = a.out.block_index as int;
    assert(lops_v(c.out.arena.blocks@[i].ops@) =~= lops_v(a.out.arena.blocks@[i].ops@) + (x + y));
}

impl<'a, 'o> SamCpu<'a, 'o> {
    /// The writer points at one of the blocks.
    pub open spec fn ok(&self) -> bool {
        self.out.block_index < self.out.arena.blocks@.len()
    }

    fn emit(&mut self, op: SamLOp)
        requires
            old(self).ok(),
        ensures
            emitted(&*old(self), &*final(self), seq![lop_v(op)]),
            final(self).cur_b_offset == old(self).cur_b_offset,
            final(self).ok(),
            *final(final(self).out.arena) == *final(old(self).out.arena),
    {
        let ghost i = self.out.block_index as int;
        self.out.add_op(op);
        assert(lops_v(self.out.arena.blocks@[i].ops@)
            =~= lops_v(old(self).out.arena.blocks@[i].ops@) + seq![lop_v(op)]);
    }

    /// Moves `B` to `offset` in the frame.
    pub fn goto_b_offset(&mut self, offset: u32)
        requires
            old(self).ok(),
        ensures
            emitted(&*old(self), &*final(self), goto_b_ops(old(self).cur_b_offset, offset)),
            final(self).cur_b_offset == offset,
            final(self).ok(),
            *final(final(self).out.arena) == *final(old(self).out.arena),
    {
        if self.cur_b_offset < offset {
            self.emit(SamLOp::Simple(SamSOp::AddConstToB(offset - self.cur_b_offset)));
        } else if offset < self.cur_b_offset {
            self.emit(SamLOp::Simple(SamSOp::SubConstFromB(self.cur_b_offset - offset)));
        } else {
            assert(lops_v(self.out.arena.blocks@[self.out.block_index as int].ops@)
                =~= lops_v(self.out.arena.blocks@[self.out.block_index as int].ops@) + Seq::<LOpV>::empty());
        }
        self.cur_b_offset = offset;
    }

    /// Sets `X` to a literal, which must fit in a byte.
    pub fn set_x(&mut self, val: &String)
        requires
            old(self).ok(),
            all_digits(val@),
            decimal_value(val@) < 0x100,
        ensures
            emitted(&*old(self), &*final(self), seq![LOpV::Simple(SamSOp::SetX(decimal_value(val@) as u8))]),
            final(self).cur_b_offset == old(self).cur_b_offset,
            final(self).ok(),
            *final(final(self).out.arena) == *final(old(self).out.arena),
    {
        let v = literal_to_u8(val);
        self.emit(SamLOp::Simple(SamSOp::SetX(v)));
    }

    /// Sets `A` to a literal, which must fit in 32 bits.
    pub fn set_a(&mut self, val: &String)
        requires
            old(self).ok(),
            all_digits(val@),
            decimal_value(val@) < 0x1_0000_0000,
        ensures
            emitted(&*old(self), &*final(self), seq![LOpV::Simple(SamSOp::SetA(decimal_value(val@) as u32))]),
            final(self).cur_b_offset == old(self).cur_b_offset,
            final(self).ok(),
            *final(final(self).out.arena) == *final(old(self).out.arena),
    {
        let v = literal_to_u32(val);
        self.emit(SamLOp::Simple(SamSOp::SetA(v)));
    }

    /// Moves `B` to a variable and runs `op` there.
    fn at_local(&mut self, location: u32, op: SamSOp)
        requires
            old(self).ok(),
        ensures
            emitted(&*old(self), &*final(self), goto_b_ops(old(self).cur_b_offset, location).push(LOpV::Simple(op))),
            final(self).cur_b_offset == location,
            final(self).ok(),
            *final(final(self).out.arena) == *final(old(self).out.arena),
    {
        let ghost s0 = &*self;
        self.goto_b_offset(location);
        let ghost s1 = &*self;
        self.emit(SamLOp::Simple(op));
        proof {
            lemma_blocks_emitted_trans(s0, s1, &*self, goto_b_ops(s0.cur_b_offset, location), seq![LOpV::Simple(op)]);
            assert(goto_b_ops(s0.cur_b_offset, location) + seq![LOpV::Simple(op)]
                =~= goto_b_ops(s0.cur_b_offset, location).push(LOpV::Simple(op)));
        }
    }

    /// Writes `X` into a byte variable.
    pub fn write_x_at(&mut self, local: &LocalVar)
        requires
            old(self).ok(),
            local.typ == VarType::U8,
        ensures
            emitted(&*old(self), &*final(self), goto_b_ops(old(self).cur_b_offset, local.location).push(LOpV::Simple(SamSOp::WriteXAtB))),
            final(self).cur_b_offset == local.location,
            final(self).ok(),
            *final(final(self).out.arena) == *final(old(self).out.arena),
    {
        self.at_local(local.location, SamSOp::WriteXAtB);
    }

    /// Writes `A` into a word variable.
    pub fn write_a_at(&mut self, local: &LocalVar)
        requires
            old(self).ok(),
            local.typ == VarType::U32,
        ensures
            emitted(&*old(self), &*final(self), goto_b_ops(old(self).cur_b_offset, local.location).push(LOpV::Simple(SamSOp::WriteAAtB))),
            final(self).cur_b_offset == local.location,
            final(self).ok(),
            *final(final(self).out.arena) == *final(old(self).out.arena),
    {
        self.at_local(local.location, SamSOp::WriteAAtB);
    }

    /// Reads a byte variable into `X`.
    pub fn read_x_at(&mut self, local: &LocalVar)
        requires
            old(self).ok(),
            local.typ == VarType::U8,
        ensures
            emitted(&*old(self), &*final(self), goto_b_ops(old(self).cur_b_offset, local.location).push(LOpV::Simple(SamSOp::ReadXAtB))),
            final(self).cur_b_offset == local.location,
            final(self).ok(),
            *final(final(self).out.arena) == *final(old(self).out.arena),
    {
        self.at_local(local.location, SamSOp::ReadXAtB);
    }

    /// Reads a word variable into `A`.
    pub fn read_a_at(&mut self, local: &LocalVar)
        requires
            old(self).ok(),
            local.typ == VarType::U32,
        ensures
            emitted(&*old(self), &*final(self), goto_b_ops(old(self).cur_b_offset, local.location).push(LOpV::Simple(SamSOp::ReadAAtB))),
            final(self).cur_b_offset == local.location,
            final(self).ok(),
            *final(final(self).out.arena) == *final(old(self).out.arena),
    {
        self.at_local(local.location, SamSOp::ReadAAtB);
    }

    /// Copies one variable into another of the same type, through `X` or `A`;
    /// a variable copied onto itself takes no instruction.
    pub fn copy_local_to_local(&mut self, a: &LocalVar, b: &LocalVar)
        requires
            old(self).ok(),
            a.typ == b.typ,
        ensures
            a.location == b.location ==> emitted(&*old(self), &*final(self), Seq::empty())
                && final(self).cur_b_offset == old(self).cur_b_offset,
            a.location != b.location ==> emitted(&*old(self), &*final(self),
                goto_b_ops(old(self).cur_b_offset, a.location).push(LOpV::Simple(
                    if a.typ == VarType::U8 { SamSOp::ReadXAtB } else { SamSOp::ReadAAtB }))
                + goto_b_ops(a.location, b.location).push(LOpV::Simple(
                    if a.typ == VarType::U8 { SamSOp::WriteXAtB } else { SamSOp::WriteAAtB })))
                && final(self).cur_b_offset == b.location,
            final(self).ok(),
            *final(final(self).out.arena) == *final(old(self).out.arena),
    {
        if a.location == b.location {
            assert(lops_v(self.out.arena.blocks@[self.out.block_index as int].ops@)
                =~= lops_v(self.out.arena.blocks@[self.out.block_index as int].ops@) + Seq::<LOpV>::empty());
            return;
        }
        let ghost s0 = &*self;
        let r = if a.typ == VarType::U8 { SamSOp::ReadXAtB } else { SamSOp::ReadAAtB };
        let w = if a.typ == VarType::U8 { SamSOp::WriteXAtB } else { SamSOp::WriteAAtB };
        self.at_local(a.location, r);
        let ghost s1 = &*self;
        self.at_local(b.location, w);
        proof {
            lemma_blocks_emitted_trans(s0, s1, &*self,
                goto_b_ops(s0.cur_b_offset, a.location).push(LOpV::Simple(r)),
                goto_b_ops(a.location, b.location).push(LOpV::Simple(w)));
        }
    }

    /// Ends the current block and continues in a new, empty one that follows
    /// it; returns the indices of the two.
    pub fn split_to_new_block(&mut self) -> (r: (usize, usize))
        requires
            old(self).ok(),
        ensures
            r == (old(self).out.block_index, old(self).out.arena.blocks@.len() as usize),
            final(self).out.block_index == old(self).out.arena.blocks@.len(),
            final(self).out.arena.blocks@.len() == old(self).out.arena.blocks@.len() + 1,
            forall|j: int| 0 <= j < old(self).out.arena.blocks@.len() && j != old(self).out.block_index
                ==> #[trigger] final(self).out.arena.blocks@[j] == old(self).out.arena.blocks@[j],
            final(self).out.arena.blocks@[old(self).out.block_index as int].ops@
                == old(self).out.arena.blocks@[old(self).out.block_index as int].ops@,
            final(self).out.arena.blocks@[old(self).out.block_index as int].next_block_index
                == Some(old(self).out.arena.blocks@.len() as usize),
            final(self).out.arena.blocks@.last().ops@.len() == 0,
            final(self).out.arena.blocks@.last().next_block_index is None,
            final(self).locals == old(self).locals,
            final(self).cur_b_offset == old(self).cur_b_offset,
            final(self).ok(),
            *final(final(self).out.arena) == *final(old(self).out.arena),
    {
        let old_block_index = self.out.block_index;
        let new_block_index = self.out.arena.new_block_writer().block_index;
        self.out.set_next_block_index(Some(new_block_index));
        self.out.block_index = new_block_index;
        (old_block_index, new_block_index)
    }

}


impl<'a, 'o> SamCpu<'a, 'o> {
    /// The variables and functions as values.
    pub open spec fn ls(&self) -> Seq<(Seq<char>, VarType, u32)> {
        locals_v(self.locals.locals@)
    }

    pub open spec fn ds(&self) -> Seq<FnDeclV> {
        fndecls_v(self.fn_decls@)
    }

    /// The type and offset of the last variable of a name.
    fn find_var(&self, name: &String) -> (r: Option<(VarType, u32)>)
        ensures
            r == find_local(self.ls(), name@),
    {
        let ghost ls = self.ls();
        let mut k: usize = self.locals.locals.len();
        assert(ls.take(k as int) =~= ls);
        while k > 0
            invariant
                0 <= k <= self.locals.locals@.len(),
                ls == self.ls(),
                find_local(ls, name@) == find_local(ls.take(k as int), name@),
            decreases k,
        {
            let l = &self.locals.locals[k - 1];
            assert(ls.take(k as int).last() == (l.name@, l.typ, l.location));
            if l.name == *name {
                return Some((l.typ, l.location));
            }
            assert(ls.take(k as int).drop_last() =~= ls.take(k - 1));
            k = k - 1;
        }
        None
    }

    /// The index of the last function of a name.
    fn find_decl(&self, name: &String) -> (r: Option<usize>)
        ensures
            match find_fn(self.ds(), name@) {
                Some(d) => r is Some && r->0 < self.fn_decls@.len() && fndecl_v(self.fn_decls@[r->0 as int]) == d,
                None => r is None,
            },
    {
        let ghost ds = self.ds();
        let mut k: usize = self.fn_decls.len();
        assert(ds.take(k as int) =~= ds);
        while k > 0
            invariant
                0 <= k <= self.fn_decls@.len(),
                ds == self.ds(),
                find_fn(ds, name@) == find_fn(ds.take(k as int), name@),
            decreases k,
        {
            assert(ds.take(k as int).last() == fndecl_v(self.fn_decls@[k - 1]));
            if self.fn_decls[k - 1].name == *name {
                return Some(k - 1);
            }
            assert(ds.take(k as int).drop_last() =~= ds.take(k - 1));
            k = k - 1;
        }
        None
    }

    /// The type of an expression; unknown names and operands of different
    /// types are rejected.
    pub fn get_expr_type(&self, expr: &Expr) -> (r: Result<ExprTy, Hir2SamError>)
        ensures
            match ty_of(self.ls(), self.ds(), expr_v(*expr)) {
                Some(t) => r == Ok::<ExprTy, Hir2SamError>(t),
                None => r is Err,
            },
        decreases *expr,
    {
        match expr {
            Expr::Literal(_) => Ok(ExprTy::Free),
            Expr::VarRef(x) => match self.find_var(x) {
                Some((t, _)) => Ok(ExprTy::Of(t)),
                None => Err(Hir2SamError::Rejected),
            },
            Expr::BinOp(b) => {
                let ta = match self.get_expr_type(&b.args.0) {
                    Ok(t) => t,
                    Err(e) => {
                        return Err(e);
                    },
                };
                let tb = match self.get_expr_type(&b.args.1) {
                    Ok(t) => t,
                    Err(e) => {
                        return Err(e);
                    },
                };
                if ta == ExprTy::Free {
                    Ok(tb)
                } else if tb == ExprTy::Free {
                    Ok(ta)
                } else if ta == tb {
                    Ok(ta)
                } else {
                    Err(Hir2SamError::Rejected)
                }
            },
            Expr::FnCall(c) => match self.find_decl(&c.fn_name) {
                Some(i) => match self.fn_decls[i].ret {
                    Some(t) => Ok(ExprTy::Of(t)),
                    None => Ok(ExprTy::Unit),
                },
                None => Err(Hir2SamError::Rejected),
            },
        }
    }

    /// Moves a value of type `vt` (none: the unit type) at offset `vl` to `dest`.
    fn store(&mut self, vt: Option<VarType>, vl: u32, dest: Dest) -> (r: Result<(), Hir2SamError>)
        requires
            old(self).ok(),
        ensures
            final(self).ok(),
            *final(final(self).out.arena) == *final(old(self).out.arena),
            final(self).fn_decls == old(self).fn_decls,
            match store_ops(old(self).cur_b_offset, vt, vl, dest) {
                Some((o, b)) => r is Ok && emitted(&*old(self), &*final(self), o) && final(self).cur_b_offset == b,
                None => r is Err,
            },
    {
        match dest {
            Dest::Nowhere => {
                assert(lops_v(self.out.arena.blocks@[self.out.block_index as int].ops@)
                    =~= lops_v(self.out.arena.blocks@[self.out.block_index as int].ops@) + Seq::<LOpV>::empty());
                Ok(())
            },
            Dest::X => {
                if vt != Some(VarType::U8) {
                    return Err(Hir2SamError::Rejected);
                }
                self.at_local(vl, SamSOp::ReadXAtB);
                Ok(())
            },
            Dest::A => {
                if vt != Some(VarType::U32) {
                    return Err(Hir2SamError::Rejected);
                }
                self.at_local(vl, SamSOp::ReadAAtB);
                Ok(())
            },
            Dest::Local(t, loc) => {
                if vt != Some(t) {
                    return Err(Hir2SamError::Rejected);
                }
                if vl == loc {
                    assert(lops_v(self.out.arena.blocks@[self.out.block_index as int].ops@)
                        =~= lops_v(self.out.arena.blocks@[self.out.block_index as int].ops@) + Seq::<LOpV>::empty());
                    return Ok(());
                }
                let ghost s0 = &*self;
                let rd = if t == VarType::U8 { SamSOp::ReadXAtB } else { SamSOp::ReadAAtB };
                let wr = if t == VarType::U8 { SamSOp::WriteXAtB } else { SamSOp::WriteAAtB };
                self.at_local(vl, rd);
                let ghost s1 = &*self;
                self.at_local(loc, wr);
                proof {
                    lemma_blocks_emitted_trans(s0, s1, &*self, at_ops(s0.cur_b_offset, vl, rd), at_ops(vl, loc, wr));
                }
                Ok(())
            },
        }
    }
}


impl<'a, 'o> SamCpu<'a, 'o> {
    /// Writes the code of an expression whose value goes to `dest`; the
    /// variables and the frame size are as they were afterwards.
    pub fn eval_expr(&mut self, expr: &Expr, dest: Dest) -> (r: Result<(), Hir2SamError>)
        requires
            old(self).ok(),
        ensures
            final(self).ok(),
            *final(final(self).out.arena) == *final(old(self).out.arena),
            final(self).fn_decls == old(self).fn_decls,
            match g_eval(old(self).ls(), old(self).locals.cur_stack_size, old(self).ds(), old(self).cur_b_offset, expr_v(*expr), dest) {
                Some((o, b)) => r is Ok && emitted(&*old(self), &*final(self), o) && final(self).cur_b_offset == b,
                None => r is Err,
            },
        decreases *expr, 2int, 0int,
    {
        match expr {
            Expr::Literal(d) => {
                if !is_digits(d) {
                    return Err(Hir2SamError::Rejected);
                }
                match dest {
                    Dest::Nowhere => {
                        assert(lops_v(self.out.arena.blocks@[self.out.block_index as int].ops@)
                            =~= lops_v(self.out.arena.blocks@[self.out.block_index as int].ops@) + Seq::<LOpV>::empty());
                        Ok(())
                    },
                    Dest::X => {
                        if !literal_below(d, 0x100) {
                            return Err(Hir2SamError::Rejected);
                        }
                        self.set_x(d);
                        Ok(())
                    },
                    Dest::A => {
                        if !literal_below(d, 0x1_0000_0000) {
                            return Err(Hir2SamError::Rejected);
                        }
                        self.set_a(d);
                        Ok(())
                    },
                    Dest::Local(t, loc) => {
                        let ghost s0 = &*self;
                        if t == VarType::U8 {
                            if !literal_below(d, 0x100) {
                                return Err(Hir2SamError::Rejected);
                            }
                            self.set_x(d);
                            let ghost s1 = &*self;
                            self.at_local(loc, SamSOp::WriteXAtB);
                            proof {
                                lemma_blocks_emitted_trans(s0, s1, &*self,
                                    seq![LOpV::Simple(SamSOp::SetX(decimal_value(d@) as u8))],
                                    at_ops(s1.cur_b_offset, loc, SamSOp::WriteXAtB));
                            }
                        } else {
                            if !literal_below(d, 0x1_0000_0000) {
                                return Err(Hir2SamError::Rejected);
                            }
                            self.set_a(d);
                            let ghost s1 = &*self;
                            self.at_local(loc, SamSOp::WriteAAtB);
                            proof {
                                lemma_blocks_emitted_trans(s0, s1, &*self,
                                    seq![LOpV::Simple(SamSOp::SetA(decimal_value(d@) as u32))],
                                    at_ops(s1.cur_b_offset, loc, SamSOp::WriteAAtB));
                            }
                        }
                        Ok(())
                    },
                }
            },
            Expr::VarRef(x) => match self.find_var(x) {
                None => Err(Hir2SamError::Rejected),
                Some((vt, vl)) => self.store(Some(vt), vl, dest),
            },
            Expr::BinOp(bin) => self.eval_binop(expr, bin, dest),
            Expr::FnCall(c) => self.call(c, dest),
        }
    }

    #[verifier::spinoff_prover]
    #[verifier::rlimit(40)]
    fn eval_binop(&mut self, expr: &Expr, bin: &BinOp, dest: Dest) -> (r: Result<(), Hir2SamError>)
        requires
            old(self).ok(),
            *expr == Expr::BinOp(*bin),
        ensures
            final(self).ok(),
            *final(final(self).out.arena) == *final(old(self).out.arena),
            final(self).fn_decls == old(self).fn_decls,
            match g_eval(old(self).ls(), old(self).locals.cur_stack_size, old(self).ds(), old(self).cur_b_offset, expr_v(*expr), dest) {
                Some((o, b)) => r is Ok && emitted(&*old(self), &*final(self), o) && final(self).cur_b_offset == b,
                None => r is Err,
            },
        decreases *expr, 1int, 0int,
    {
        let mt = match self.get_expr_type(expr) {
            Ok(t) => t,
            Err(e) => {
                return Err(e);
            },
        };
        let typ = match dest {
            Dest::Nowhere => match mt {
                ExprTy::Of(t) => t,
                _ => {
                    return Err(Hir2SamError::Rejected);
                },
            },
            Dest::X => match mt {
                ExprTy::Of(t) => if t == VarType::U8 {
                    t
                } else {
                    return Err(Hir2SamError::Rejected);
                },
                ExprTy::Unit => {
                    return Err(Hir2SamError::Rejected);
                },
                ExprTy::Free => VarType::U8,
            },
            Dest::A => match mt {
                ExprTy::Of(t) => if t == VarType::U32 {
                    t
                } else {
                    return Err(Hir2SamError::Rejected);
                },
                ExprTy::Unit => {
                    return Err(Hir2SamError::Rejected);
                },
                ExprTy::Free => VarType::U32,
            },
            Dest::Local(lt, _) => match mt {
                ExprTy::Of(t) => if t == lt {
                    lt
                } else {
                    return Err(Hir2SamError::Rejected);
                },
                ExprTy::Unit => {
                    return Err(Hir2SamError::Rejected);
                },
                ExprTy::Free => lt,
            },
        };
        assert(binop_type(mt, dest) == Some(typ));
        let size = self.locals.cur_stack_size;
        let ts = type_size(typ);
        if size > u32::MAX - ts {
            return Err(Hir2SamError::Rejected);
        }
        let ghost s0 = &*self;
        self.locals.cur_stack_size = size + ts;
        let ghost s1 = &*self;
        assert(blocks_emitted(s0, s1, Seq::empty())) by {
            assert(lops_v(s1.out.arena.blocks@[s0.out.block_index as int].ops@)
                =~= lops_v(s0.out.arena.blocks@[s0.out.block_index as int].ops@) + Seq::<LOpV>::empty());
        }
        match self.eval_expr(&bin.args.0, Dest::Local(typ, size)) {
            Ok(()) => {},
            Err(e) => {
                return Err(e);
            },
        }
        let ghost s2 = &*self;
        let rhs_dest = if typ == VarType::U8 { Dest::X } else { Dest::A };
        match self.eval_expr(&bin.args.1, rhs_dest) {
            Ok(()) => {},
            Err(e) => {
                return Err(e);
            },
        }
        let ghost s3 = &*self;
        let ghost o1 = g_eval(s1.ls(), (size + ts) as u32, s1.ds(), s1.cur_b_offset, expr_v(bin.args.0), Dest::Local(typ, size)).unwrap().0;
        let ghost o2 = g_eval(s2.ls(), (size + ts) as u32, s2.ds(), s2.cur_b_offset, expr_v(bin.args.1), rhs_dest).unwrap().0;
        let ghost o3: Seq<LOpV>;
        match bin.kind {
            BinOpKind::Div => {
                return Err(Hir2SamError::Rejected);
            },
            _ => {},
        }
        self.goto_b_offset(size);
        let ghost s4 = &*self;
        if typ == VarType::U8 {
            match bin.kind {
                BinOpKind::Plus => {
                    self.emit(SamLOp::Simple(SamSOp::AddU8AtBToX));
                },
                BinOpKind::Minus => {
                    let ghost t0 = &*self;
                    self.emit(SamLOp::Simple(SamSOp::NegX));
                    let ghost t1 = &*self;
                    self.emit(SamLOp::Simple(SamSOp::AddU8AtBToX));
                    proof {
                        lemma_blocks_emitted_trans(t0, t1, &*self, seq![LOpV::Simple(SamSOp::NegX)], seq![LOpV::Simple(SamSOp::AddU8AtBToX)]);
                        assert(seq![LOpV::Simple(SamSOp::NegX)] + seq![LOpV::Simple(SamSOp::AddU8AtBToX)]
                            =~= seq![LOpV::Simple(SamSOp::NegX), LOpV::Simple(SamSOp::AddU8AtBToX)]);
                    }
                },
                _ => {
                    self.emit(SamLOp::Simple(SamSOp::MulU8AtBToX));
                },
            }
        } else {
            match bin.kind {
                BinOpKind::Plus => {
                    self.emit(SamLOp::Simple(SamSOp::AddU32AtBToA));
                },
                BinOpKind::Minus => {
                    let ghost t0 = &*self;
                    self.emit(SamLOp::Simple(SamSOp::NegA));
                    let ghost t1 = &*self;
                    self.emit(SamLOp::Simple(SamSOp::AddU32AtBToA));
                    proof {
                        lemma_blocks_emitted_trans(t0, t1, &*self, seq![LOpV::Simple(SamSOp::NegA)], seq![LOpV::Simple(SamSOp::AddU32AtBToA)]);
                        assert(seq![LOpV::Simple(SamSOp::NegA)] + seq![LOpV::Simple(SamSOp::AddU32AtBToA)]
                            =~= seq![LOpV::Simple(SamSOp::NegA), LOpV::Simple(SamSOp::AddU32AtBToA)]);
                    }
                },
                _ => {
                    self.emit(SamLOp::Simple(SamSOp::MulU32AtBToA));
                },
            }
        }
        let ghost s5 = &*self;
        proof {
            let ops3 = binop_ops(bin.kind, typ).unwrap();
            lemma_blocks_emitted_trans(s0, s1, s2, Seq::empty(), o1);
            lemma_blocks_emitted_trans(s0, s2, s3, Seq::empty() + o1, o2);
            lemma_blocks_emitted_trans(s0, s3, s4, Seq::empty() + o1 + o2, goto_b_ops(s3.cur_b_offset, size));
            lemma_blocks_emitted_trans(s0, s4, s5, Seq::empty() + o1 + o2 + goto_b_ops(s3.cur_b_offset, size), ops3);
            assert(Seq::empty() + o1 + o2 + goto_b_ops(s3.cur_b_offset, size) + ops3
                =~= o1 + o2 + goto_b_ops(s3.cur_b_offset, size) + ops3);
        }
        self.locals.cur_stack_size = size;
        let ghost s6 = &*self;
        assert(blocks_emitted(s5, s6, Seq::empty())) by {
            assert(lops_v(s6.out.arena.blocks@[s5.out.block_index as int].ops@)
                =~= lops_v(s5.out.arena.blocks@[s5.out.block_index as int].ops@) + Seq::<LOpV>::empty());
        }
        proof {
            let o = o1 + o2 + goto_b_ops(s3.cur_b_offset, size) + binop_ops(bin.kind, typ).unwrap();
            lemma_blocks_emitted_trans(s0, s5, s6, o, Seq::empty());
            assert(o + Seq::<LOpV>::empty() =~= o);
        }
        match dest {
            Dest::Local(_, loc) => {
                let wr = if typ == VarType::U8 { SamSOp::WriteXAtB } else { SamSOp::WriteAAtB };
                self.at_local(loc, wr);
                proof {
                    let o = o1 + o2 + goto_b_ops(s3.cur_b_offset, size) + binop_ops(bin.kind, typ).unwrap();
                    lemma_blocks_emitted_trans(s0, s6, &*self, o, at_ops(size, loc, wr));
                }
            },
            _ => {},
        }
        Ok(())
    }

    /// Writes the code of a call whose result goes to `dest`: a printing
    /// function prints its one argument; any other function gets a frame of
    /// its result, its arguments and its return address above the caller's.
    pub fn call(&mut self, c: &FnCall, dest: Dest) -> (r: Result<(), Hir2SamError>)
        requires
            old(self).ok(),
        ensures
            final(self).ok(),
            *final(final(self).out.arena) == *final(old(self).out.arena),
            final(self).fn_decls == old(self).fn_decls,
            match g_call(old(self).ls(), old(self).locals.cur_stack_size, old(self).ds(), old(self).cur_b_offset,
                c.fn_name@, exprs_v(c.args@), dest) {
                Some((o, b)) => r is Ok && emitted(&*old(self), &*final(self), o) && final(self).cur_b_offset == b,
                None => r is Err,
            },
        decreases *c, 1int, 0int,
    {
        proof {
            lemma_exprs_v_index(c.args@);
        }
        let is_print = text_is(&c.fn_name, "print");
        let is_println = text_is(&c.fn_name, "println");
        let is_print_char = text_is(&c.fn_name, "print_char");
        if is_print || is_println || is_print_char {
            if c.args.len() != 1 {
                return Err(Hir2SamError::Rejected);
            }
            let t0 = match self.get_expr_type(&c.args[0]) {
                Ok(t) => t,
                Err(e) => {
                    return Err(e);
                },
            };
            if t0 == ExprTy::Unit {
                return Err(Hir2SamError::Rejected);
            }
            let typ = match t0 {
                ExprTy::Of(t) => t,
                _ => VarType::U32,
            };
            if typ == VarType::U32 && !is_print && !is_println {
                return Err(Hir2SamError::Rejected);
            }
            let ghost s0 = &*self;
            let d = if typ == VarType::U8 { Dest::X } else { Dest::A };
            match self.eval_expr(&c.args[0], d) {
                Ok(()) => {},
                Err(e) => {
                    return Err(e);
                },
            }
            let ghost s1 = &*self;
            let ghost o = g_eval(s0.ls(), s0.locals.cur_stack_size, s0.ds(), s0.cur_b_offset, expr_v(c.args@[0]), d).unwrap().0;
            if typ == VarType::U8 {
                if is_print {
                    self.emit(SamLOp::Simple(SamSOp::MoveXToA));
                    let ghost t1 = &*self;
                    self.emit(SamLOp::Simple(SamSOp::PrintA));
                    proof {
                        lemma_blocks_emitted_trans(s0, s1, t1, o, seq![LOpV::Simple(SamSOp::MoveXToA)]);
                        lemma_blocks_emitted_trans(s0, t1, &*self, o + seq![LOpV::Simple(SamSOp::MoveXToA)], seq![LOpV::Simple(SamSOp::PrintA)]);
                        assert(o + seq![LOpV::Simple(SamSOp::MoveXToA)] + seq![LOpV::Simple(SamSOp::PrintA)]
                            =~= o + print_ops(c.fn_name@, typ).unwrap());
                    }
                } else if is_println {
                    self.emit(SamLOp::Simple(SamSOp::MoveXToA));
                    let ghost t1 = &*self;
                    self.emit(SamLOp::Simple(SamSOp::PrintA));
                    let ghost t2 = &*self;
                    self.emit(SamLOp::Simple(SamSOp::SetX(10)));
                    let ghost t3 = &*self;
                    self.emit(SamLOp::Simple(SamSOp::PrintCharX));
                    proof {
                        lemma_blocks_emitted_trans(s0, s1, t1, o, seq![LOpV::Simple(SamSOp::MoveXToA)]);
                        lemma_blocks_emitted_trans(s0, t1, t2, o + seq![LOpV::Simple(SamSOp::MoveXToA)], seq![LOpV::Simple(SamSOp::PrintA)]);
                        lemma_blocks_emitted_trans(s0, t2, t3, o + seq![LOpV::Simple(SamSOp::MoveXToA)] + seq![LOpV::Simple(SamSOp::PrintA)], seq![LOpV::Simple(SamSOp::SetX(10))]);
                        lemma_blocks_emitted_trans(s0, t3, &*self, o + seq![LOpV::Simple(SamSOp::MoveXToA)] + seq![LOpV::Simple(SamSOp::PrintA)] + seq![LOpV::Simple(SamSOp::SetX(10))], seq![LOpV::Simple(SamSOp::PrintCharX)]);
                        assert(o + seq![LOpV::Simple(SamSOp::MoveXToA)] + seq![LOpV::Simple(SamSOp::PrintA)] + seq![LOpV::Simple(SamSOp::SetX(10))] + seq![LOpV::Simple(SamSOp::PrintCharX)]
                            =~= o + print_ops(c.fn_name@, typ).unwrap());
                    }
                } else {
                    self.emit(SamLOp::Simple(SamSOp::PrintCharX));
                    proof {
                        lemma_blocks_emitted_trans(s0, s1, &*self, o, seq![LOpV::Simple(SamSOp::PrintCharX)]);
                    }
                }
            } else {
                if is_print {
                    self.emit(SamLOp::Simple(SamSOp::PrintA));
                    proof {
                        lemma_blocks_emitted_trans(s0, s1, &*self, o, seq![LOpV::Simple(SamSOp::PrintA)]);
                    }
                } else {
                    self.emit(SamLOp::Simple(SamSOp::PrintA));
                    let ghost t2 = &*self;
                    self.emit(SamLOp::Simple(SamSOp::SetX(10)));
                    let ghost t3 = &*self;
                    self.emit(SamLOp::Simple(SamSOp::PrintCharX));
                    proof {
                        lemma_blocks_emitted_trans(s0, s1, t2, o, seq![LOpV::Simple(SamSOp::PrintA)]);
                        lemma_blocks_emitted_trans(s0, t2, t3, o + seq![LOpV::Simple(SamSOp::PrintA)], seq![LOpV::Simple(SamSOp::SetX(10))]);
                        lemma_blocks_emitted_trans(s0, t3, &*self, o + seq![LOpV::Simple(SamSOp::PrintA)] + seq![LOpV::Simple(SamSOp::SetX(10))], seq![LOpV::Simple(SamSOp::PrintCharX)]);
                        assert(o + seq![LOpV::Simple(SamSOp::PrintA)] + seq![LOpV::Simple(SamSOp::SetX(10))] + seq![LOpV::Simple(SamSOp::PrintCharX)]
                            =~= o + print_ops(c.fn_name@, typ).unwrap());
                    }
                }
            }
            return Ok(());
        }
        let decls = self.fn_decls;
        let idx = match self.find_decl(&c.fn_name) {
            Some(i) => i,
            None => {
                return Err(Hir2SamError::Rejected);
            },
        };
        let d = &decls[idx];
        if d.args.len() != c.args.len() {
            return Err(Hir2SamError::Rejected);
        }
        let rs: u32 = match d.ret {
            Some(t) => type_size(t),
            None => 0,
        };
        let size = self.locals.cur_stack_size;
        if size > u32::MAX - rs {
            return Err(Hir2SamError::Rejected);
        }
        let ghost s0 = &*self;
        self.locals.cur_stack_size = size + rs;
        let ghost s1 = &*self;
        assert(blocks_emitted(s0, s1, Seq::empty())) by {
            assert(lops_v(s1.out.arena.blocks@[s0.out.block_index as int].ops@)
                =~= lops_v(s0.out.arena.blocks@[s0.out.block_index as int].ops@) + Seq::<LOpV>::empty());
        }
        match self.eval_args(&c.args, &d.args, 0) {
            Ok(()) => {},
            Err(e) => {
                return Err(e);
            },
        }
        let ghost s2 = &*self;
        let ghost o1 = g_args(s1.ls(), (size + rs) as u32, s1.ds(), s1.cur_b_offset, exprs_v(c.args@), args_v(d.args@), 0).unwrap().0;
        let s2size = self.locals.cur_stack_size;
        if s2size > u32::MAX - 4 {
            return Err(Hir2SamError::Rejected);
        }
        self.goto_b_offset(s2size);
        let ghost s3 = &*self;
        self.emit(SamLOp::Call(d.name.clone()));
        let ghost s4 = &*self;
        self.locals.cur_stack_size = size;
        let ghost s5 = &*self;
        proof {
            lemma_blocks_emitted_trans(s0, s1, s2, Seq::empty(), o1);
            lemma_blocks_emitted_trans(s0, s2, s3, Seq::empty() + o1, goto_b_ops(s2.cur_b_offset, s2size));
            lemma_blocks_emitted_trans(s0, s3, s4, Seq::empty() + o1 + goto_b_ops(s2.cur_b_offset, s2size), seq![LOpV::Call(d.name@)]);
            assert(blocks_emitted(s4, s5, Seq::empty())) by {
                assert(lops_v(s5.out.arena.blocks@[s4.out.block_index as int].ops@)
                    =~= lops_v(s4.out.arena.blocks@[s4.out.block_index as int].ops@) + Seq::<LOpV>::empty());
            }
            lemma_blocks_emitted_trans(s0, s4, s5, Seq::empty() + o1 + goto_b_ops(s2.cur_b_offset, s2size) + seq![LOpV::Call(d.name@)], Seq::empty());
            assert(Seq::empty() + o1 + goto_b_ops(s2.cur_b_offset, s2size) + seq![LOpV::Call(d.name@)] + Seq::<LOpV>::empty()
                =~= o1 + goto_b_ops(s2.cur_b_offset, s2size).push(LOpV::Call(d.name@)));
            assert(s5.locals == s0.locals);
        }
        let r = self.store(d.ret, size, dest);
        proof {
            if r is Ok {
                let o2 = o1 + goto_b_ops(s2.cur_b_offset, s2size).push(LOpV::Call(d.name@));
                lemma_blocks_emitted_trans(s0, s5, &*self, o2, store_ops(s5.cur_b_offset, d.ret, size, dest).unwrap().0);
            }
        }
        r
    }

    /// Puts arguments `i..` of a call in new variables of the frame, one
    /// after the other; the frame keeps them afterwards.
    fn eval_args(&mut self, args: &Vec<Expr>, params: &Vec<FnArgDecl>, i: usize) -> (r: Result<(), Hir2SamError>)
        requires
            old(self).ok(),
        ensures
            final(self).ok(),
            *final(final(self).out.arena) == *final(old(self).out.arena),
            final(self).fn_decls == old(self).fn_decls,
            match g_args(old(self).ls(), old(self).locals.cur_stack_size, old(self).ds(), old(self).cur_b_offset,
                exprs_v(args@), args_v(params@), i as int) {
                Some((o, b, sz)) => r is Ok && blocks_emitted(&*old(self), &*final(self), o) && final(self).cur_b_offset == b
                    && final(self).locals.locals == old(self).locals.locals && final(self).locals.cur_stack_size == sz,
                None => r is Err,
            },
        decreases *args, 0int, args.len() - i,
    {
        proof {
            lemma_exprs_v_index(args@);
        }
        if i >= args.len() || i >= params.len() {
            assert(lops_v(self.out.arena.blocks@[self.out.block_index as int].ops@)
                =~= lops_v(self.out.arena.blocks@[self.out.block_index as int].ops@) + Seq::<LOpV>::empty());
            return Ok(());
        }
        let t = params[i].arg_type;
        let ts = type_size(t);
        let size = self.locals.cur_stack_size;
        if size > u32::MAX - ts {
            return Err(Hir2SamError::Rejected);
        }
        let ghost s0 = &*self;
        self.locals.cur_stack_size = size + ts;
        let ghost s1 = &*self;
        assert(blocks_emitted(s0, s1, Seq::empty())) by {
            assert(lops_v(s1.out.arena.blocks@[s0.out.block_index as int].ops@)
                =~= lops_v(s0.out.arena.blocks@[s0.out.block_index as int].ops@) + Seq::<LOpV>::empty());
        }
        match self.eval_expr(&args[i], Dest::Local(t, size)) {
            Ok(()) => {},
            Err(e) => {
                return Err(e);
            },
        }
        let ghost s2 = &*self;
        let ghost o1 = g_eval(s1.ls(), (size + ts) as u32, s1.ds(), s1.cur_b_offset, expr_v(args@[i as int]), Dest::Local(t, size)).unwrap().0;
        let r = self.eval_args(args, params, i + 1);
        proof {
            if r is Ok {
                lemma_blocks_emitted_trans(s0, s1, s2, Seq::empty(), o1);
                let o2 = g_args(s2.ls(), s2.locals.cur_stack_size, s2.ds(), s2.cur_b_offset, exprs_v(args@), args_v(params@), i + 1).unwrap().0;
                lemma_blocks_emitted_trans(s0, s2, &*self, Seq::empty() + o1, o2);
                assert(Seq::empty() + o1 + o2 =~= o1 + o2);
            }
        }
        r
    }
}


impl<'a, 'o> SamCpu<'a, 'o> {
    /// Writes the code of a statement.
    pub fn exec_stmt(&mut self, st: &Stmt) -> (r: Result<(), Hir2SamError>)
        requires
            old(self).ok(),
        ensures
            final(self).ok(),
            *final(final(self).out.arena) == *final(old(self).out.arena),
            final(self).fn_decls == old(self).fn_decls,
            match g_stmt(old(self).ls(), old(self).locals.cur_stack_size, old(self).ds(), old(self).cur_b_offset, stmt_v(*st)) {
                Some((o, b, ls, sz)) => r is Ok && blocks_emitted(&*old(self), &*final(self), o) && final(self).cur_b_offset == b
                    && final(self).ls() == ls && final(self).locals.cur_stack_size == sz,
                None => r is Err,
            },
    {
        match st {
            Stmt::VarDecl(d) => {
                let size = self.locals.cur_stack_size;
                if size > u32::MAX - type_size(d.typ) {
                    return Err(Hir2SamError::Rejected);
                }
                let ghost s0 = &*self;
                let ghost l0 = self.locals.locals@;
                let (t, loc) = self.locals.create(Some(d.var_name.clone()), d.typ);
                let ghost s1 = &*self;
                proof {
                    assert(locals_v(self.locals.locals@) =~= locals_v(l0).push((d.var_name@, d.typ, size)));
                    assert(lops_v(s1.out.arena.blocks@[s0.out.block_index as int].ops@)
                        =~= lops_v(s0.out.arena.blocks@[s0.out.block_index as int].ops@) + Seq::<LOpV>::empty());
                }
                let r = self.eval_expr(&d.init, Dest::Local(t, loc));
                proof {
                    if r is Ok {
                        let o = g_eval(s1.ls(), s1.locals.cur_stack_size, s1.ds(), s1.cur_b_offset, expr_v(d.init), Dest::Local(t, loc)).unwrap().0;
                        lemma_blocks_emitted_trans(s0, s1, &*self, Seq::empty(), o);
                        assert(Seq::<LOpV>::empty() + o =~= o);
                    }
                }
                r
            },
            Stmt::VarAssign(a) => match self.find_var(&a.var_name) {
                None => Err(Hir2SamError::Rejected),
                Some((t, loc)) => self.eval_expr(&a.expr, Dest::Local(t, loc)),
            },
            Stmt::FnCall(c) => self.call(c, Dest::Nowhere),
        }
    }

    /// Writes the code of statements `i..`, one after the other.
    fn exec_stmts(&mut self, sts: &Vec<Stmt>, i: usize) -> (r: Result<(), Hir2SamError>)
        requires
            old(self).ok(),
        ensures
            final(self).ok(),
            *final(final(self).out.arena) == *final(old(self).out.arena),
            final(self).fn_decls == old(self).fn_decls,
            match g_stmts(old(self).ls(), old(self).locals.cur_stack_size, old(self).ds(), old(self).cur_b_offset, stmts_v(sts@), i as int) {
                Some((o, b, ls, sz)) => r is Ok && blocks_emitted(&*old(self), &*final(self), o) && final(self).cur_b_offset == b
                    && final(self).ls() == ls && final(self).locals.cur_stack_size == sz,
                None => r is Err,
            },
        decreases sts.len() - i,
    {
        if i >= sts.len() {
            assert(lops_v(self.out.arena.blocks@[self.out.block_index as int].ops@)
                =~= lops_v(self.out.arena.blocks@[self.out.block_index as int].ops@) + Seq::<LOpV>::empty());
            return Ok(());
        }
        let ghost s0 = &*self;
        match self.exec_stmt(&sts[i]) {
            Ok(()) => {},
            Err(e) => {
                return Err(e);
            },
        }
        let ghost s1 = &*self;
        let ghost o1 = g_stmt(s0.ls(), s0.locals.cur_stack_size, s0.ds(), s0.cur_b_offset, stmt_v(sts@[i as int])).unwrap().0;
        let r = self.exec_stmts(sts, i + 1);
        proof {
            if r is Ok {
                let o2 = g_stmts(s1.ls(), s1.locals.cur_stack_size, s1.ds(), s1.cur_b_offset, stmts_v(sts@), i + 1).unwrap().0;
                lemma_blocks_emitted_trans(s0, s1, &*self, o1, o2);
            }
        }
        r
    }
}

/// Adds parameters `i..` as named variables of the frame.
fn add_params(locals: &mut Locals, params: &Vec<FnArgDecl>, i: usize) -> (r: Result<(), Hir2SamError>)
    ensures
        match g_params(args_v(params@), i as int, locals_v(old(locals).locals@), old(locals).cur_stack_size) {
            Some((ls, sz)) => r is Ok && locals_v(final(locals).locals@) == ls && final(locals).cur_stack_size == sz,
            None => r is Err,
        },
    decreases params.len() - i,
{
    if i >= params.len() {
        return Ok(());
    }
    let t = params[i].arg_type;
    if locals.cur_stack_size > u32::MAX - type_size(t) {
        return Err(Hir2SamError::Rejected);
    }
    let ghost l0 = locals.locals@;
    let ghost size = locals.cur_stack_size;
    locals.create(Some(params[i].arg_name.clone()), t);
    assert(locals_v(locals.locals@) =~= locals_v(l0).push((params@[i as int].arg_name@, t, size)));
    add_params(locals, params, i + 1)
}

/// Translates one function into its one block of code.
fn compile_fn(decls: &Vec<FnDecl>, idx: usize) -> (r: Result<SamFn, Hir2SamError>)
    requires
        idx < decls.len(),
    ensures
        match r {
            Ok(f) => fn_translated(f, fndecls_v(decls@), fndecl_v(decls@[idx as int])),
            Err(_) => fn_code(fndecls_v(decls@), fndecl_v(decls@[idx as int])) is None,
        },
{
    let d = &decls[idx];
    let ghost ds = fndecls_v(decls@);
    let ghost dv = fndecl_v(decls@[idx as int]);
    let rs: u32 = match d.ret {
        Some(t) => type_size(t),
        None => 0,
    };
    let mut locals = Locals { locals: Vec::new(), cur_stack_size: rs };
    assert(locals_v(locals.locals@) =~= Seq::<(Seq<char>, VarType, u32)>::empty());
    match add_params(&mut locals, &d.args, 0) {
        Ok(()) => {},
        Err(e) => {
            return Err(e);
        },
    }
    let iret = locals.cur_stack_size;
    if iret > u32::MAX - 4 {
        return Err(Hir2SamError::Rejected);
    }
    locals.cur_stack_size = iret + 4;
    let mut blocks: Vec<SamBlock> = Vec::new();
    blocks.push(SamBlock { ops: Vec::new(), next_block_index: None });
    let mut arena = SamBlockArena { blocks };
    let ghost blocks_after: Seq<SamBlock>;
    {
        let out = SamBlockWriter { arena: &mut arena, block_index: 0 };
        let mut cpu = SamCpu { locals, out, cur_b_offset: iret, fn_decls: decls };
        let ghost c0 = &cpu;
        assert(lops_v(cpu.out.arena.blocks@[0].ops@) =~= Seq::<LOpV>::empty());
        match cpu.exec_stmts(&d.stmts, 0) {
            Ok(()) => {},
            Err(e) => {
                return Err(e);
            },
        }
        let ghost c1 = &cpu;
        let ghost o = g_stmts(c0.ls(), c0.locals.cur_stack_size, c0.ds(), c0.cur_b_offset, stmts_v(d.stmts@), 0).unwrap().0;
        cpu.goto_b_offset(iret);
        let ghost c2 = &cpu;
        cpu.emit(SamLOp::Simple(SamSOp::Ret));
        proof {
            lemma_blocks_emitted_trans(c0, c1, c2, o, goto_b_ops(c1.cur_b_offset, iret));
            lemma_blocks_emitted_trans(c0, c2, &cpu, o + goto_b_ops(c1.cur_b_offset, iret), seq![LOpV::Simple(SamSOp::Ret)]);
            assert(o + goto_b_ops(c1.cur_b_offset, iret) + seq![LOpV::Simple(SamSOp::Ret)]
                =~= o + goto_b_ops(c1.cur_b_offset, iret).push(LOpV::Simple(SamSOp::Ret)));
            assert(lops_v(cpu.out.arena.blocks@[0].ops@) == fn_code(ds, dv).unwrap());
            blocks_after = cpu.out.arena.blocks@;
        }
        let SamCpu { out: w, .. } = cpu;
        let SamBlockWriter { arena: ar, .. } = w;
        assert(ar.blocks@ == blocks_after);
        assert(has_resolved(ar));
        assert(after_borrow(arena).blocks@ == blocks_after);
    }
    assert(arena.blocks@ == blocks_after);
    let mut arg_sizes: Vec<u32> = Vec::new();
    let mut k: usize = 0;
    while k < d.args.len()
        invariant
            0 <= k <= d.args@.len(),
            arg_sizes@ == d.args@.take(k as int).map_values(|p: FnArgDecl| type_size_spec(p.arg_type) as u32),
        decreases d.args@.len() - k,
    {
        arg_sizes.push(type_size(d.args[k].arg_type));
        assert(d.args@.take(k + 1).map_values(|p: FnArgDecl| type_size_spec(p.arg_type) as u32)
            =~= d.args@.take(k as int).map_values(|p: FnArgDecl| type_size_spec(p.arg_type) as u32)
                .push(type_size_spec(d.args@[k as int].arg_type) as u32));
        k = k + 1;
    }
    assert(d.args@.take(k as int) =~= d.args@);
    assert(arg_sizes@ =~= dv.args.map_values(|p: (Seq<char>, VarType)| type_size_spec(p.1) as u32));
    Ok(SamFn { name: d.name.clone(), arg_sizes, ret_size: rs, blocks: arena.blocks })
}

/// Translates every function of a program into SAM code, in the order of the
/// program; a function that the translator rejects makes the whole
/// translation fail. The language has no conditionals, loops or return
/// statements, so each function is one straight block that ends in a return.
pub fn hir2sam(program: &Program) -> (r: Result<Vec<SamFn>, Hir2SamError>)
    ensures
        r is Ok <==> (forall|j: int| 0 <= j < program.fns@.len()
            ==> #[trigger] fn_code(fndecls_v(program.fns@), fndecl_v(program.fns@[j])) is Some),
        match r {
            Ok(fns) => fns@.len() == program.fns@.len() && forall|j: int| 0 <= j < fns@.len()
                ==> #[trigger] fn_translated(fns@[j], fndecls_v(program.fns@), fndecl_v(program.fns@[j])),
            Err(_) => true,
        },
{
    let mut fns: Vec<SamFn> = Vec::new();
    let mut i: usize = 0;
    while i < program.fns.len()
        invariant
            0 <= i <= program.fns@.len(),
            fns@.len() == i,
            forall|j: int| 0 <= j < i ==> #[trigger] fn_translated(fns@[j], fndecls_v(program.fns@), fndecl_v(program.fns@[j])),
        decreases program.fns@.len() - i,
    {
        match compile_fn(&program.fns, i) {
            Ok(f) => {
                fns.push(f);
            },
            Err(e) => {
                assert(fn_code(fndecls_v(program.fns@), fndecl_v(program.fns@[i as int])) is None);
                return Err(e);
            },
        }
        i = i + 1;
    }
    assert forall|j: int| 0 <= j < program.fns@.len()
        implies #[trigger] fn_code(fndecls_v(program.fns@), fndecl_v(program.fns@[j])) is Some by {
        assert(fn_translated(fns@[j], fndecls_v(program.fns@), fndecl_v(program.fns@[j])));
    }
    Ok(fns)
}

}
verus! {

/// Runs straight-line instructions on the SAM machine, from `m`.
pub open spec fn run_lops(m: SamM, ops: Seq<LOpV>) -> SamM
    decreases ops.len(),
{
    if ops.len() == 0 {
        m
    } else {
        let m1 = match ops[0] {
            LOpV::Simple(s) => exec_sop(m, s),
            _ => m,
        };
        run_lops(m1, ops.drop_first())
    }
}

proof fn lemma_wrap(x: int, n: int)
    requires
        n > 0,
        0 <= x < 2 * n,
    ensures
        x % n == if x < n { x } else { x - n },
{
    if x < n {
        vstd::arithmetic::div_mod::lemma_small_mod(x as nat, n as nat);
    } else {
        vstd::arithmetic::div_mod::lemma_small_mod((x - n) as nat, n as nat);
        vstd::arithmetic::div_mod::lemma_mod_sub_multiples_vanish(x, n);
    }
}

proof fn lemma_one_op(m: SamM, op: SamSOp)
    ensures run_lops(m, seq![LOpV::Simple(op)]) == exec_sop(m, op),
{
    reveal_with_fuel(run_lops, 2);
    assert(seq![LOpV::Simple(op)].drop_first() =~= Seq::<LOpV>::empty());
}

proof fn lemma_two_ops(m: SamM, op1: SamSOp, op2: SamSOp)
    ensures run_lops(m, seq![LOpV::Simple(op1), LOpV::Simple(op2)]) == exec_sop(exec_sop(m, op1), op2),
{
    let ops = seq![LOpV::Simple(op1), LOpV::Simple(op2)];
    assert(ops.drop_first() =~= seq![LOpV::Simple(op2)]);
    lemma_one_op(exec_sop(m, op1), op2);
}

#[verifier::spinoff_prover]
proof fn lemma_sub_word(m: SamM)
    ensures
        ({
            let v = read32(m.cells, m.b as int) as int;
            let w = m.a as int;
            run_lops(m, seq![LOpV::Simple(SamSOp::NegA), LOpV::Simple(SamSOp::AddU32AtBToA)]).a as int
                == if v >= w { v - w } else { v - w + 0x1_0000_0000 }
        }),
{
    lemma_two_ops(m, SamSOp::NegA, SamSOp::AddU32AtBToA);
    let m1 = exec_sop(m, SamSOp::NegA);
    let v = read32(m.cells, m.b as int) as int;
    let w = m.a as int;
    assert(read32(m1.cells, m1.b as int) as int == v);
    lemma_wrap(0x1_0000_0000 - w, 0x1_0000_0000);
    assert(m1.a as int == if w == 0 { 0 } else { 0x1_0000_0000 - w });
    lemma_wrap(m1.a as int + v, 0x1_0000_0000);
}

#[verifier::spinoff_prover]
proof fn lemma_sub_byte(m: SamM)
    ensures
        ({
            let v = read8(m.cells, m.b as int) as int;
            let w = m.x as int;
            run_lops(m, seq![LOpV::Simple(SamSOp::NegX), LOpV::Simple(SamSOp::AddU8AtBToX)]).x as int
                == if v >= w { v - w } else { v - w + 256 }
        }),
{
    lemma_two_ops(m, SamSOp::NegX, SamSOp::AddU8AtBToX);
    let m1 = exec_sop(m, SamSOp::NegX);
    let v = read8(m.cells, m.b as int) as int;
    let w = m.x as int;
    assert(read8(m1.cells, m1.b as int) as int == v);
    lemma_wrap(256 - w, 256);
    assert(m1.x as int == if w == 0 { 0 } else { 256 - w });
    lemma_wrap(m1.x as int + v, 256);
}

/// `v + w`, `v - w` or `v * w` for values below `n`, wrapped to `0..n`.
pub open spec fn wrapped_result(kind: BinOpKind, v: int, w: int, n: int) -> int {
    match kind {
        BinOpKind::Plus => (v + w) % n,
        BinOpKind::Minus => if v >= w { v - w } else { v - w + n },
        BinOpKind::Mul => (v * w) % n,
        BinOpKind::Div => 0,
    }
}

/// The instructions of each operator compute it: with the left operand `v` at
/// `B` and the right one `w` in `A` (words) or `X` (bytes), they leave
/// `v + w`, `v - w` or `v * w`, wrapped to the width, in `A` or `X`; a
/// division has no instructions (the translator refuses it).
#[verifier::spinoff_prover]
pub proof fn lemma_binop_ops_compute(kind: BinOpKind, m: SamM)
    ensures
        binop_ops(kind, VarType::U32) is Some <==> kind != BinOpKind::Div,
        binop_ops(kind, VarType::U8) is Some <==> kind != BinOpKind::Div,
        kind != BinOpKind::Div ==> run_lops(m, binop_ops(kind, VarType::U32).unwrap()).a as int
            == wrapped_result(kind, read32(m.cells, m.b as int) as int, m.a as int, 0x1_0000_0000),
        kind != BinOpKind::Div ==> run_lops(m, binop_ops(kind, VarType::U8).unwrap()).x as int
            == wrapped_result(kind, read8(m.cells, m.b as int) as int, m.x as int, 256),
{
    match kind {
        BinOpKind::Minus => {
            let ow = seq![LOpV::Simple(SamSOp::NegA), LOpV::Simple(SamSOp::AddU32AtBToA)];
            let ob = seq![LOpV::Simple(SamSOp::NegX), LOpV::Simple(SamSOp::AddU8AtBToX)];
            assert(binop_ops(kind, VarType::U32) == Some(ow));
            assert(binop_ops(kind, VarType::U8) == Some(ob));
            lemma_sub_word(m);
            lemma_sub_byte(m);
            assert(run_lops(m, ow).a as int == wrapped_result(kind, read32(m.cells, m.b as int) as int, m.a as int, 0x1_0000_0000));
            assert(run_lops(m, ob).x as int == wrapped_result(kind, read8(m.cells, m.b as int) as int, m.x as int, 256));
        },
        BinOpKind::Plus => {
            assert(binop_ops(kind, VarType::U32) == Some(seq![LOpV::Simple(SamSOp::AddU32AtBToA)]));
            assert(binop_ops(kind, VarType::U8) == Some(seq![LOpV::Simple(SamSOp::AddU8AtBToX)]));
            lemma_one_op(m, SamSOp::AddU32AtBToA);
            lemma_one_op(m, SamSOp::AddU8AtBToX);
        },
        BinOpKind::Mul => {
            assert(binop_ops(kind, VarType::U32) == Some(seq![LOpV::Simple(SamSOp::MulU32AtBToA)]));
            assert(binop_ops(kind, VarType::U8) == Some(seq![LOpV::Simple(SamSOp::MulU8AtBToX)]));
            lemma_one_op(m, SamSOp::MulU32AtBToA);
            lemma_one_op(m, SamSOp::MulU8AtBToX);
            let v32 = read32(m.cells, m.b as int) as int;
            let v8 = read8(m.cells, m.b as int) as int;
            let a = m.a as int;
            let x = m.x as int;
            assert(a * v32 == v32 * a) by (nonlinear_arith);
            assert(x * v8 == v8 * x) by (nonlinear_arith);
        },
        BinOpKind::Div => {},
    }
}

}
