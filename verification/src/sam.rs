use vstd::prelude::*;

verus! {

/// An unsigned machine word of the SAM machine.
pub type SamVal = u32;
/// A signed machine word (jump offsets).
pub type SamIVal = i32;

pub const OPCODE_HALT: u8 = 0;
pub const OPCODE_SET_X: u8 = 1;
pub const OPCODE_SET_A: u8 = 2;
pub const OPCODE_READ_A_AT_B: u8 = 3;
pub const OPCODE_READ_X_AT_B: u8 = 4;
pub const OPCODE_WRITE_A_AT_B: u8 = 5;
pub const OPCODE_WRITE_X_AT_B: u8 = 6;
pub const OPCODE_PRINT_CHAR_X: u8 = 7;
pub const OPCODE_STDIN_X: u8 = 8;
pub const OPCODE_ADD_CONST_TO_B: u8 = 9;
pub const OPCODE_SUB_CONST_FROM_B: u8 = 10;
pub const OPCODE_PRINT_A: u8 = 11;
pub const OPCODE_CALL: u8 = 12;
pub const OPCODE_RET: u8 = 13;
pub const OPCODE_JUMP: u8 = 14;
pub const OPCODE_JUMP_IF_X: u8 = 15;
pub const OPCODE_ADD_U8_AT_B_TO_X: u8 = 16;
pub const OPCODE_MUL_U8_AT_B_TO_X: u8 = 17;
pub const OPCODE_ADD_U32_AT_B_TO_A: u8 = 18;
pub const OPCODE_MUL_U32_AT_B_TO_A: u8 = 19;
pub const OPCODE_NEG_A: u8 = 20;
pub const OPCODE_NEG_X: u8 = 21;
pub const OPCODE_MOVE_X_TO_A: u8 = 22;
pub const OPCODE_NOT_X: u8 = 23;
pub const OPCODE_ADD_CONST_TO_X: u8 = 24;
pub const OPCODE_CMP_U8_AT_B_WITH_X: u8 = 25;
pub const OPCODE_CMP_U32_AT_B_WITH_A: u8 = 26;
pub const OPCODE_SET_X_TO_U8_AT_B_DIV_BY_X: u8 = 27;
pub const OPCODE_SET_A_TO_U32_AT_B_DIV_BY_A: u8 = 28;
pub const OPCODE_SET_X_TO_U8_AT_B_MOD_X: u8 = 29;
pub const OPCODE_SET_A_TO_U32_AT_B_MOD_A: u8 = 30;
pub const OPCODE_COPY_A_TO_B: u8 = 31;
pub const OPCODE_COPY_B_TO_A: u8 = 32;
pub const OPCODE_SWAP_B_AND_C: u8 = 33;

pub const NUM_OPCODES: u8 = 34;

/// A SAM instruction that does not refer to a code address.
#[derive(Debug, Clone, Copy, PartialEq, Eq, Structural)]
pub enum SamSOp {
    Halt,
    SetX(u8),
    SetA(SamVal),
    ReadAAtB,
    ReadXAtB,
    WriteAAtB,
    WriteXAtB,
    PrintCharX,
    StdinX,
    AddConstToB(SamVal),
    SubConstFromB(SamVal),
    PrintA,
    Ret,
    AddU32AtBToA,
    MulU32AtBToA,
    AddU8AtBToX,
    MulU8AtBToX,
    NegA,
    NegX,
    MoveXToA,
    NotX,
    AddConstToX(u8),
    CmpU8AtBWithX,
    CmpU32AtBWithA,
    SetXToU8AtBDivByX,
    SetAToU32AtBDivByA,
    SetXToU8AtBModX,
    SetAToU32AtBModA,
    CopyAToB,
    CopyBToA,
    SwapBAndC,
}

/// A SAM instruction.
#[derive(Debug, Clone, Copy, PartialEq, Eq, Structural)]
pub enum SamOp {
    Simple(SamSOp),
    Call(SamVal),
    Jmp(SamIVal),
    JmpIfX(SamIVal),
}

/// The four bytes of `v`, most significant first.
pub open spec fn be_bytes(v: u32) -> Seq<u8> {
    seq![(v >> 24u32) as u8, ((v >> 16u32) & 0xffu32) as u8, ((v >> 8u32) & 0xffu32) as u8, (v & 0xffu32) as u8]
}

/// The word whose big-endian bytes are `s[0..4]`.
pub open spec fn be_word(s: Seq<u8>) -> u32 {
    ((s[0] as u32) << 24u32) | ((s[1] as u32) << 16u32) | ((s[2] as u32) << 8u32) | (s[3] as u32)
}

/// The opcode of an instruction that does not refer to a code address, and its operand bytes.
pub open spec fn sop_encoding(op: SamSOp) -> Seq<u8> {
    match op {
        SamSOp::Halt => seq![OPCODE_HALT],
        SamSOp::SetX(v) => seq![OPCODE_SET_X, v],
        SamSOp::SetA(v) => seq![OPCODE_SET_A] + be_bytes(v),
        SamSOp::ReadAAtB => seq![OPCODE_READ_A_AT_B],
        SamSOp::ReadXAtB => seq![OPCODE_READ_X_AT_B],
        SamSOp::WriteAAtB => seq![OPCODE_WRITE_A_AT_B],
        SamSOp::WriteXAtB => seq![OPCODE_WRITE_X_AT_B],
        SamSOp::PrintCharX => seq![OPCODE_PRINT_CHAR_X],
        SamSOp::StdinX => seq![OPCODE_STDIN_X],
        SamSOp::AddConstToB(v) => seq![OPCODE_ADD_CONST_TO_B] + be_bytes(v),
        SamSOp::SubConstFromB(v) => seq![OPCODE_SUB_CONST_FROM_B] + be_bytes(v),
        SamSOp::PrintA => seq![OPCODE_PRINT_A],
        SamSOp::Ret => seq![OPCODE_RET],
        SamSOp::AddU8AtBToX => seq![OPCODE_ADD_U8_AT_B_TO_X],
        SamSOp::MulU8AtBToX => seq![OPCODE_MUL_U8_AT_B_TO_X],
        SamSOp::AddU32AtBToA => seq![OPCODE_ADD_U32_AT_B_TO_A],
        SamSOp::MulU32AtBToA => seq![OPCODE_MUL_U32_AT_B_TO_A],
        SamSOp::NegA => seq![OPCODE_NEG_A],
        SamSOp::NegX => seq![OPCODE_NEG_X],
        SamSOp::MoveXToA => seq![OPCODE_MOVE_X_TO_A],
        SamSOp::NotX => seq![OPCODE_NOT_X],
        SamSOp::AddConstToX(v) => seq![OPCODE_ADD_CONST_TO_X, v],
        SamSOp::CmpU8AtBWithX => seq![OPCODE_CMP_U8_AT_B_WITH_X],
        SamSOp::CmpU32AtBWithA => seq![OPCODE_CMP_U32_AT_B_WITH_A],
        SamSOp::SetXToU8AtBDivByX => seq![OPCODE_SET_X_TO_U8_AT_B_DIV_BY_X],
        SamSOp::SetAToU32AtBDivByA => seq![OPCODE_SET_A_TO_U32_AT_B_DIV_BY_A],
        SamSOp::SetXToU8AtBModX => seq![OPCODE_SET_X_TO_U8_AT_B_MOD_X],
        SamSOp::SetAToU32AtBModA => seq![OPCODE_SET_A_TO_U32_AT_B_MOD_A],
        SamSOp::CopyAToB => seq![OPCODE_COPY_A_TO_B],
        SamSOp::CopyBToA => seq![OPCODE_COPY_B_TO_A],
        SamSOp::SwapBAndC => seq![OPCODE_SWAP_B_AND_C],
    }
}

/// The bytes of an instruction: its opcode, then its operand, a byte or a big-endian word.
pub open spec fn op_encoding(op: SamOp) -> Seq<u8> {
    match op {
        SamOp::Simple(s) => sop_encoding(s),
        SamOp::Call(c) => seq![OPCODE_CALL] + be_bytes(c),
        SamOp::Jmp(o) => seq![OPCODE_JUMP] + be_bytes(o as u32),
        SamOp::JmpIfX(o) => seq![OPCODE_JUMP_IF_X] + be_bytes(o as u32),
    }
}

/// Number of operand bytes that follow an opcode.
pub open spec fn operand_len(opcode: u8) -> int {
    if opcode == OPCODE_SET_X || opcode == OPCODE_ADD_CONST_TO_X {
        1
    } else if opcode == OPCODE_SET_A || opcode == OPCODE_ADD_CONST_TO_B || opcode == OPCODE_SUB_CONST_FROM_B
        || opcode == OPCODE_CALL || opcode == OPCODE_JUMP || opcode == OPCODE_JUMP_IF_X {
        4
    } else {
        0
    }
}

/// The instruction whose encoding starts `s`.
pub open spec fn decode_spec(s: Seq<u8>) -> SamOp {
    let w = be_word(s.subrange(1, 5));
    let opc = s[0];
    if opc == OPCODE_HALT { SamOp::Simple(SamSOp::Halt) }
    else if opc == OPCODE_SET_X { SamOp::Simple(SamSOp::SetX(s[1])) }
    else if opc == OPCODE_SET_A { SamOp::Simple(SamSOp::SetA(w)) }
    else if opc == OPCODE_READ_A_AT_B { SamOp::Simple(SamSOp::ReadAAtB) }
    else if opc == OPCODE_READ_X_AT_B { SamOp::Simple(SamSOp::ReadXAtB) }
    else if opc == OPCODE_WRITE_A_AT_B { SamOp::Simple(SamSOp::WriteAAtB) }
    else if opc == OPCODE_WRITE_X_AT_B { SamOp::Simple(SamSOp::WriteXAtB) }
    else if opc == OPCODE_PRINT_CHAR_X { SamOp::Simple(SamSOp::PrintCharX) }
    else if opc == OPCODE_STDIN_X { SamOp::Simple(SamSOp::StdinX) }
    else if opc == OPCODE_ADD_CONST_TO_B { SamOp::Simple(SamSOp::AddConstToB(w)) }
    else if opc == OPCODE_SUB_CONST_FROM_B { SamOp::Simple(SamSOp::SubConstFromB(w)) }
    else if opc == OPCODE_PRINT_A { SamOp::Simple(SamSOp::PrintA) }
    else if opc == OPCODE_CALL { SamOp::Call(w) }
    else if opc == OPCODE_RET { SamOp::Simple(SamSOp::Ret) }
    else if opc == OPCODE_JUMP { SamOp::Jmp(w as i32) }
    else if opc == OPCODE_JUMP_IF_X { SamOp::JmpIfX(w as i32) }
    else if opc == OPCODE_ADD_U8_AT_B_TO_X { SamOp::Simple(SamSOp::AddU8AtBToX) }
    else if opc == OPCODE_MUL_U8_AT_B_TO_X { SamOp::Simple(SamSOp::MulU8AtBToX) }
    else if opc == OPCODE_ADD_U32_AT_B_TO_A { SamOp::Simple(SamSOp::AddU32AtBToA) }
    else if opc == OPCODE_MUL_U32_AT_B_TO_A { SamOp::Simple(SamSOp::MulU32AtBToA) }
    else if opc == OPCODE_NEG_A { SamOp::Simple(SamSOp::NegA) }
    else if opc == OPCODE_NEG_X { SamOp::Simple(SamSOp::NegX) }
    else if opc == OPCODE_MOVE_X_TO_A { SamOp::Simple(SamSOp::MoveXToA) }
    else if opc == OPCODE_NOT_X { SamOp::Simple(SamSOp::NotX) }
    else if opc == OPCODE_ADD_CONST_TO_X { SamOp::Simple(SamSOp::AddConstToX(s[1])) }
    else if opc == OPCODE_CMP_U8_AT_B_WITH_X { SamOp::Simple(SamSOp::CmpU8AtBWithX) }
    else if opc == OPCODE_CMP_U32_AT_B_WITH_A { SamOp::Simple(SamSOp::CmpU32AtBWithA) }
    else if opc == OPCODE_SET_X_TO_U8_AT_B_DIV_BY_X { SamOp::Simple(SamSOp::SetXToU8AtBDivByX) }
    else if opc == OPCODE_SET_A_TO_U32_AT_B_DIV_BY_A { SamOp::Simple(SamSOp::SetAToU32AtBDivByA) }
    else if opc == OPCODE_SET_X_TO_U8_AT_B_MOD_X { SamOp::Simple(SamSOp::SetXToU8AtBModX) }
    else if opc == OPCODE_SET_A_TO_U32_AT_B_MOD_A { SamOp::Simple(SamSOp::SetAToU32AtBModA) }
    else if opc == OPCODE_COPY_A_TO_B { SamOp::Simple(SamSOp::CopyAToB) }
    else if opc == OPCODE_COPY_B_TO_A { SamOp::Simple(SamSOp::CopyBToA) }
    else { SamOp::Simple(SamSOp::SwapBAndC) }
}

/// `s` starts with the encoding of some instruction: a known opcode and all its operand bytes.
pub open spec fn decodable(s: Seq<u8>) -> bool {
    &&& s.len() >= 1
    &&& s[0] < NUM_OPCODES
    &&& s.len() >= 1 + operand_len(s[0])
}

proof fn lemma_be_roundtrip(v: u32)
    ensures
        be_word(be_bytes(v)) == v,
        be_bytes(v).len() == 4,
{
    let b0 = (v >> 24u32) as u8;
    let b1 = ((v >> 16u32) & 0xffu32) as u8;
    let b2 = ((v >> 8u32) & 0xffu32) as u8;
    let b3 = (v & 0xffu32) as u8;
    assert(((b0 as u32) << 24u32) | ((b1 as u32) << 16u32) | ((b2 as u32) << 8u32) | (b3 as u32) == v) by (bit_vector)
        requires
            b0 == (v >> 24u32) as u8,
            b1 == ((v >> 16u32) & 0xffu32) as u8,
            b2 == ((v >> 8u32) & 0xffu32) as u8,
            b3 == (v & 0xffu32) as u8;
}

proof fn lemma_i32_roundtrip(o: i32)
    ensures (o as u32) as i32 == o,
{
    assert((o as u32) as i32 == o) by (bit_vector);
}

/// Decoding the encoding of an instruction gives the instruction back, whatever follows it.
pub proof fn lemma_decode_encode(op: SamOp, rest: Seq<u8>)
    ensures
        decodable(op_encoding(op) + rest),
        decode_spec(op_encoding(op) + rest) == op,
        op_encoding(op).len() == 1 + operand_len(op_encoding(op)[0]),
{
    let e = op_encoding(op);
    let s = e + rest;
    match op {
        SamOp::Simple(so) => {
            match so {
                SamSOp::SetA(v) => {
                    lemma_be_roundtrip(v);
                    assert(s.subrange(1, 5) =~= be_bytes(v));
                },
                SamSOp::AddConstToB(v) => {
                    lemma_be_roundtrip(v);
                    assert(s.subrange(1, 5) =~= be_bytes(v));
                },
                SamSOp::SubConstFromB(v) => {
                    lemma_be_roundtrip(v);
                    assert(s.subrange(1, 5) =~= be_bytes(v));
                },
                _ => {},
            }
        },
        SamOp::Call(c) => {
            lemma_be_roundtrip(c);
            assert(s.subrange(1, 5) =~= be_bytes(c));
        },
        SamOp::Jmp(o) => {
            lemma_be_roundtrip(o as u32);
            lemma_i32_roundtrip(o);
            assert(s.subrange(1, 5) =~= be_bytes(o as u32));
        },
        SamOp::JmpIfX(o) => {
            lemma_be_roundtrip(o as u32);
            lemma_i32_roundtrip(o);
            assert(s.subrange(1, 5) =~= be_bytes(o as u32));
        },
    }
}

/// Appends the four big-endian bytes of `val`.
pub fn push_u32_to_vec(vec: &mut Vec<u8>, val: u32)
    ensures final(vec)@ == old(vec)@ + be_bytes(val),
{
    vec.push((val >> 24u32) as u8);
    vec.push(((val >> 16u32) & 0xffu32) as u8);
    vec.push(((val >> 8u32) & 0xffu32) as u8);
    vec.push((val & 0xffu32) as u8);
    assert(final(vec)@ =~= old(vec)@ + be_bytes(val));
}

fn push_samival_to_vec(vec: &mut Vec<u8>, val: SamIVal)
    ensures final(vec)@ == old(vec)@ + be_bytes(val as u32),
{
    push_u32_to_vec(vec, val as u32);
}

fn decode_u32(slice: &[u8], at: usize) -> (r: u32)
    requires at + 4 <= slice@.len(),
    ensures r == be_word(slice@.subrange(at as int, at + 4)),
{
    ((slice[at] as u32) << 24u32) | ((slice[at + 1] as u32) << 16u32) | ((slice[at + 2] as u32) << 8u32) | (slice[at + 3] as u32)
}

fn decode_samival(slice: &[u8], at: usize) -> (r: i32)
    requires at + 4 <= slice@.len(),
    ensures r == be_word(slice@.subrange(at as int, at + 4)) as i32,
{
    decode_u32(slice, at) as i32
}

impl SamSOp {
    /// The bytes of this instruction.
    pub fn encode(&self) -> (r: Vec<u8>)
        ensures r@ == sop_encoding(*self),
    {
        let mut res: Vec<u8> = Vec::new();
        match self {
            SamSOp::Halt => res.push(OPCODE_HALT),
            SamSOp::SetX(val) => {
                res.push(OPCODE_SET_X);
                res.push(*val);
            },
            SamSOp::SetA(val) => {
                res.push(OPCODE_SET_A);
                push_u32_to_vec(&mut res, *val);
            },
            SamSOp::ReadAAtB => res.push(OPCODE_READ_A_AT_B),
            SamSOp::ReadXAtB => res.push(OPCODE_READ_X_AT_B),
            SamSOp::WriteAAtB => res.push(OPCODE_WRITE_A_AT_B),
            SamSOp::WriteXAtB => res.push(OPCODE_WRITE_X_AT_B),
            SamSOp::PrintCharX => res.push(OPCODE_PRINT_CHAR_X),
            SamSOp::StdinX => res.push(OPCODE_STDIN_X),
            SamSOp::AddConstToB(val) => {
                res.push(OPCODE_ADD_CONST_TO_B);
                push_u32_to_vec(&mut res, *val);
            },
            SamSOp::SubConstFromB(val) => {
                res.push(OPCODE_SUB_CONST_FROM_B);
                push_u32_to_vec(&mut res, *val);
            },
            SamSOp::PrintA => res.push(OPCODE_PRINT_A),
            SamSOp::Ret => res.push(OPCODE_RET),
            SamSOp::AddU8AtBToX => res.push(OPCODE_ADD_U8_AT_B_TO_X),
            SamSOp::MulU8AtBToX => res.push(OPCODE_MUL_U8_AT_B_TO_X),
            SamSOp::AddU32AtBToA => res.push(OPCODE_ADD_U32_AT_B_TO_A),
            SamSOp::MulU32AtBToA => res.push(OPCODE_MUL_U32_AT_B_TO_A),
            SamSOp::NegA => res.push(OPCODE_NEG_A),
            SamSOp::NegX => res.push(OPCODE_NEG_X),
            SamSOp::MoveXToA => res.push(OPCODE_MOVE_X_TO_A),
            SamSOp::NotX => res.push(OPCODE_NOT_X),
            SamSOp::AddConstToX(val) => {
                res.push(OPCODE_ADD_CONST_TO_X);
                res.push(*val);
            },
            SamSOp::CmpU8AtBWithX => res.push(OPCODE_CMP_U8_AT_B_WITH_X),
            SamSOp::CmpU32AtBWithA => res.push(OPCODE_CMP_U32_AT_B_WITH_A),
            SamSOp::SetXToU8AtBDivByX => res.push(OPCODE_SET_X_TO_U8_AT_B_DIV_BY_X),
            SamSOp::SetAToU32AtBDivByA => res.push(OPCODE_SET_A_TO_U32_AT_B_DIV_BY_A),
            SamSOp::SetXToU8AtBModX => res.push(OPCODE_SET_X_TO_U8_AT_B_MOD_X),
            SamSOp::SetAToU32AtBModA => res.push(OPCODE_SET_A_TO_U32_AT_B_MOD_A),
            SamSOp::CopyAToB => res.push(OPCODE_COPY_A_TO_B),
            SamSOp::CopyBToA => res.push(OPCODE_COPY_B_TO_A),
            SamSOp::SwapBAndC => res.push(OPCODE_SWAP_B_AND_C),
        }
        assert(res@ =~= sop_encoding(*self));
        res
    }

    /// The number of bytes of this instruction.
    pub fn len(&self) -> (r: usize)
        ensures r == sop_encoding(*self).len(),
    {
        self.encode().len()
    }
}

impl SamOp {
    /// The bytes of this instruction.
    pub fn encode(&self) -> (r: Vec<u8>)
        ensures r@ == op_encoding(*self),
    {
        match self {
            SamOp::Simple(op) => op.encode(),
            SamOp::Call(c) => {
                let mut res: Vec<u8> = Vec::new();
                res.push(OPCODE_CALL);
                push_u32_to_vec(&mut res, *c);
                assert(res@ =~= op_encoding(*self));
                res
            },
            SamOp::Jmp(offset) => {
                let mut res: Vec<u8> = Vec::new();
                res.push(OPCODE_JUMP);
                push_samival_to_vec(&mut res, *offset);
                assert(res@ =~= op_encoding(*self));
                res
            },
            SamOp::JmpIfX(offset) => {
                let mut res: Vec<u8> = Vec::new();
                res.push(OPCODE_JUMP_IF_X);
                push_samival_to_vec(&mut res, *offset);
                assert(res@ =~= op_encoding(*self));
                res
            },
        }
    }

    /// The number of bytes of this instruction.
    pub fn len(&self) -> (r: usize)
        ensures r == op_encoding(*self).len(),
    {
        self.encode().len()
    }
}

/// Decodes the instruction at the start of `slice`.
fn decode_sam_op(slice: &[u8]) -> (r: SamOp)
    requires decodable(slice@),
    ensures r == decode_spec(slice@),
{
    let opc = slice[0];
    if opc == OPCODE_HALT { SamOp::Simple(SamSOp::Halt) }
    else if opc == OPCODE_SET_X { SamOp::Simple(SamSOp::SetX(slice[1])) }
    else if opc == OPCODE_SET_A { SamOp::Simple(SamSOp::SetA(decode_u32(slice, 1))) }
    else if opc == OPCODE_READ_A_AT_B { SamOp::Simple(SamSOp::ReadAAtB) }
    else if opc == OPCODE_READ_X_AT_B { SamOp::Simple(SamSOp::ReadXAtB) }
    else if opc == OPCODE_WRITE_A_AT_B { SamOp::Simple(SamSOp::WriteAAtB) }
    else if opc == OPCODE_WRITE_X_AT_B { SamOp::Simple(SamSOp::WriteXAtB) }
    else if opc == OPCODE_PRINT_CHAR_X { SamOp::Simple(SamSOp::PrintCharX) }
    else if opc == OPCODE_STDIN_X { SamOp::Simple(SamSOp::StdinX) }
    else if opc == OPCODE_ADD_CONST_TO_B { SamOp::Simple(SamSOp::AddConstToB(decode_u32(slice, 1))) }
    else if opc == OPCODE_SUB_CONST_FROM_B { SamOp::Simple(SamSOp::SubConstFromB(decode_u32(slice, 1))) }
    else if opc == OPCODE_PRINT_A { SamOp::Simple(SamSOp::PrintA) }
    else if opc == OPCODE_CALL { SamOp::Call(decode_u32(slice, 1)) }
    else if opc == OPCODE_RET { SamOp::Simple(SamSOp::Ret) }
    else if opc == OPCODE_JUMP { SamOp::Jmp(decode_samival(slice, 1)) }
    else if opc == OPCODE_JUMP_IF_X { SamOp::JmpIfX(decode_samival(slice, 1)) }
    else if opc == OPCODE_ADD_U8_AT_B_TO_X { SamOp::Simple(SamSOp::AddU8AtBToX) }
    else if opc == OPCODE_MUL_U8_AT_B_TO_X { SamOp::Simple(SamSOp::MulU8AtBToX) }
    else if opc == OPCODE_ADD_U32_AT_B_TO_A { SamOp::Simple(SamSOp::AddU32AtBToA) }
    else if opc == OPCODE_MUL_U32_AT_B_TO_A { SamOp::Simple(SamSOp::MulU32AtBToA) }
    else if opc == OPCODE_NEG_A { SamOp::Simple(SamSOp::NegA) }
    else if opc == OPCODE_NEG_X { SamOp::Simple(SamSOp::NegX) }
    else if opc == OPCODE_MOVE_X_TO_A { SamOp::Simple(SamSOp::MoveXToA) }
    else if opc == OPCODE_NOT_X { SamOp::Simple(SamSOp::NotX) }
    else if opc == OPCODE_ADD_CONST_TO_X { SamOp::Simple(SamSOp::AddConstToX(slice[1])) }
    else if opc == OPCODE_CMP_U8_AT_B_WITH_X { SamOp::Simple(SamSOp::CmpU8AtBWithX) }
    else if opc == OPCODE_CMP_U32_AT_B_WITH_A { SamOp::Simple(SamSOp::CmpU32AtBWithA) }
    else if opc == OPCODE_SET_X_TO_U8_AT_B_DIV_BY_X { SamOp::Simple(SamSOp::SetXToU8AtBDivByX) }
    else if opc == OPCODE_SET_A_TO_U32_AT_B_DIV_BY_A { SamOp::Simple(SamSOp::SetAToU32AtBDivByA) }
    else if opc == OPCODE_SET_X_TO_U8_AT_B_MOD_X { SamOp::Simple(SamSOp::SetXToU8AtBModX) }
    else if opc == OPCODE_SET_A_TO_U32_AT_B_MOD_A { SamOp::Simple(SamSOp::SetAToU32AtBModA) }
    else if opc == OPCODE_COPY_A_TO_B { SamOp::Simple(SamSOp::CopyAToB) }
    else if opc == OPCODE_COPY_B_TO_A { SamOp::Simple(SamSOp::CopyBToA) }
    else { SamOp::Simple(SamSOp::SwapBAndC) }
}

}
verus! {

use crate::bf::BfIo;
use crate::linker::{start_of, CompiledSamProgram};
use crate::semantics::{grow, wadd};

/// The state of a running SAM program: memory, instruction pointer, halt flag
/// and registers.
#[derive(Debug)]
pub struct SamState {
    pub cells: Vec<u8>,
    pub instr_ptr: SamVal,
    pub halted: bool,
    pub a: SamVal,
    pub b: SamVal,
    pub c: SamVal,
    pub x: u8,
}

/// Why an instruction could not run.
#[derive(Debug)]
pub enum SamRunOpError {
    /// The machine has halted.
    Halted,
    /// The bytes at the instruction pointer are no instruction.
    InvalidOpcode,
    /// A jump would leave the start of memory behind.
    JumpedLeftOfTape,
    /// A division or remainder by zero.
    DivisionByZero,
    /// A register or address would leave its range.
    Overflow,
    /// The step budget ran out before the machine halted.
    OutOfFuel,
}

/// Model of the SAM machine together with its input and output.
#[verifier::ext_equal]
pub struct SamM {
    pub cells: Seq<u8>,
    pub ip: u32,
    pub halted: bool,
    pub a: u32,
    pub b: u32,
    pub c: u32,
    pub x: u8,
    pub input: Seq<u8>,
    pub in_pos: int,
    pub output: Seq<u8>,
}

pub open spec fn sam_view(s: SamState, io: BfIo) -> SamM {
    SamM {
        cells: s.cells@,
        ip: s.instr_ptr,
        halted: s.halted,
        a: s.a,
        b: s.b,
        c: s.c,
        x: s.x,
        input: io.input@,
        in_pos: io.input_pos as int,
        output: io.output@,
    }
}

/// An address whose cell the machine may make room for.
pub open spec fn addr_ok(n: int) -> bool {
    0 <= n <= u32::MAX && n < usize::MAX
}

/// The word stored at `at` (memory beyond the end reads as zero).
pub open spec fn read32(cells: Seq<u8>, at: int) -> u32 {
    be_word(grow(cells, at + 4).subrange(at, at + 4))
}

pub open spec fn read8(cells: Seq<u8>, at: int) -> u8 {
    grow(cells, at + 1)[at]
}

pub open spec fn write32(cells: Seq<u8>, at: int, v: u32) -> Seq<u8> {
    let g = grow(cells, at + 4);
    let e = be_bytes(v);
    g.update(at, e[0]).update(at + 1, e[1]).update(at + 2, e[2]).update(at + 3, e[3])
}

/// The decimal digits of `n`, as ASCII.
pub open spec fn decimal(n: nat) -> Seq<u8>
    decreases n,
{
    if n < 10 {
        seq![(48 + n) as u8]
    } else {
        decimal(n / 10).push((48 + n % 10) as u8)
    }
}

/// 1, 0 or 255 as `p` is greater than, equal to or less than `q`.
pub open spec fn order_code(p: int, q: int) -> u8 {
    if p > q {
        1
    } else if p == q {
        0
    } else {
        255
    }
}

/// The instruction can run without a fault.
pub open spec fn sop_ok(m: SamM, op: SamSOp) -> bool {
    match op {
        SamSOp::ReadAAtB | SamSOp::WriteAAtB | SamSOp::AddU32AtBToA | SamSOp::MulU32AtBToA
        | SamSOp::Ret | SamSOp::CmpU32AtBWithA => addr_ok(m.b + 4),
        SamSOp::ReadXAtB | SamSOp::WriteXAtB | SamSOp::AddU8AtBToX | SamSOp::MulU8AtBToX
        | SamSOp::CmpU8AtBWithX => addr_ok(m.b + 1),
        SamSOp::SetXToU8AtBDivByX | SamSOp::SetXToU8AtBModX => addr_ok(m.b + 1) && m.x != 0,
        SamSOp::SetAToU32AtBDivByA | SamSOp::SetAToU32AtBModA => addr_ok(m.b + 4) && m.a != 0,
        SamSOp::AddConstToB(v) => m.b + v <= u32::MAX,
        SamSOp::SubConstFromB(v) => m.b >= v,
        SamSOp::AddConstToX(v) => m.x + v <= u8::MAX,
        _ => true,
    }
}

/// The target of a jump by `o` from the instruction pointer, as the machine computes it.
pub open spec fn jump_target(m: SamM, o: i32) -> int {
    (m.ip as i32) + o
}

pub open spec fn op_ok(m: SamM, op: SamOp) -> bool {
    match op {
        SamOp::Simple(s) => sop_ok(m, s) && (s != SamSOp::Ret ==> m.ip + sop_encoding(s).len() <= u32::MAX),
        SamOp::Call(_) => m.ip + 5 <= u32::MAX && addr_ok(m.b + 4),
        SamOp::Jmp(o) => 0 <= jump_target(m, o) <= i32::MAX,
        SamOp::JmpIfX(o) => if m.x != 0 { 0 <= jump_target(m, o) <= i32::MAX } else { m.ip + 5 <= u32::MAX },
    }
}

/// What an instruction that does not refer to a code address does, apart from
/// moving the instruction pointer past it.
pub open spec fn exec_sop(m: SamM, op: SamSOp) -> SamM {
    let b = m.b as int;
    match op {
        SamSOp::Halt => SamM { halted: true, ..m },
        SamSOp::SetX(v) => SamM { x: v, ..m },
        SamSOp::SetA(v) => SamM { a: v, ..m },
        SamSOp::ReadAAtB => SamM { a: read32(m.cells, b), cells: grow(m.cells, b + 4), ..m },
        SamSOp::ReadXAtB => SamM { x: read8(m.cells, b), cells: grow(m.cells, b + 1), ..m },
        SamSOp::WriteAAtB => SamM { cells: write32(m.cells, b, m.a), ..m },
        SamSOp::WriteXAtB => SamM { cells: grow(m.cells, b + 1).update(b, m.x), ..m },
        SamSOp::PrintCharX => SamM { output: m.output.push(m.x), ..m },
        SamSOp::StdinX => if m.in_pos >= m.input.len() {
            SamM { x: 0, ..m }
        } else if m.input[m.in_pos] == 13 {
            SamM { in_pos: m.in_pos + 1, ..m }
        } else {
            SamM { x: m.input[m.in_pos], in_pos: m.in_pos + 1, ..m }
        },
        SamSOp::AddConstToB(v) => SamM { b: (m.b + v) as u32, ..m },
        SamSOp::SubConstFromB(v) => SamM { b: (m.b - v) as u32, ..m },
        SamSOp::PrintA => SamM { output: m.output + decimal(m.a as nat), ..m },
        SamSOp::Ret => SamM { ip: read32(m.cells, b), cells: grow(m.cells, b + 4), ..m },
        SamSOp::AddU8AtBToX => SamM { x: wadd(m.x, read8(m.cells, b)), cells: grow(m.cells, b + 1), ..m },
        SamSOp::MulU8AtBToX => SamM { x: ((m.x * read8(m.cells, b)) % 256) as u8, cells: grow(m.cells, b + 1), ..m },
        SamSOp::AddU32AtBToA => SamM { a: ((m.a + read32(m.cells, b)) % 0x1_0000_0000) as u32, cells: grow(m.cells, b + 4), ..m },
        SamSOp::MulU32AtBToA => SamM { a: ((m.a * read32(m.cells, b)) % 0x1_0000_0000) as u32, cells: grow(m.cells, b + 4), ..m },
        SamSOp::NegA => SamM { a: ((0x1_0000_0000 - m.a) % 0x1_0000_0000) as u32, ..m },
        SamSOp::NegX => SamM { x: ((256 - m.x) % 256) as u8, ..m },
        SamSOp::MoveXToA => SamM { a: m.x as u32, ..m },
        SamSOp::NotX => SamM { x: if m.x == 0 { 1 } else { 0 }, ..m },
        SamSOp::AddConstToX(v) => SamM { x: (m.x + v) as u8, ..m },
        SamSOp::CmpU8AtBWithX => SamM { x: order_code(m.x as int, read8(m.cells, b) as int), cells: grow(m.cells, b + 1), ..m },
        SamSOp::CmpU32AtBWithA => SamM { x: order_code(m.a as int, read32(m.cells, b) as int), cells: grow(m.cells, b + 4), ..m },
        SamSOp::SetXToU8AtBDivByX => SamM { x: (read8(m.cells, b) / m.x) as u8, cells: grow(m.cells, b + 1), ..m },
        SamSOp::SetAToU32AtBDivByA => SamM { a: (read32(m.cells, b) / m.a) as u32, cells: grow(m.cells, b + 4), ..m },
        SamSOp::SetXToU8AtBModX => SamM { x: (read8(m.cells, b) % m.x) as u8, cells: grow(m.cells, b + 1), ..m },
        SamSOp::SetAToU32AtBModA => SamM { a: (read32(m.cells, b) % m.a) as u32, cells: grow(m.cells, b + 4), ..m },
        SamSOp::CopyAToB => SamM { b: m.a, ..m },
        SamSOp::CopyBToA => SamM { a: m.b, ..m },
        SamSOp::SwapBAndC => SamM { b: m.c, c: m.b, ..m },
    }
}

/// What an instruction does.
pub open spec fn exec_op(m: SamM, op: SamOp) -> SamM {
    match op {
        SamOp::Simple(s) => {
            let m1 = exec_sop(m, s);
            if s == SamSOp::Ret { m1 } else { SamM { ip: (m.ip + sop_encoding(s).len()) as u32, ..m1 } }
        },
        SamOp::Call(f) => SamM { cells: write32(m.cells, m.b as int, (m.ip + 5) as u32), ip: f, ..m },
        SamOp::Jmp(o) => SamM { ip: jump_target(m, o) as u32, ..m },
        SamOp::JmpIfX(o) => if m.x != 0 {
            SamM { ip: jump_target(m, o) as u32, ..m }
        } else {
            SamM { ip: (m.ip + 5) as u32, ..m }
        },
    }
}

fn push_decimal(out: &mut Vec<u8>, n: u32)
    ensures final(out)@ == old(out)@ + decimal(n as nat),
    decreases n,
{
    if n >= 10 {
        push_decimal(out, n / 10);
    }
    out.push(48 + (n % 10) as u8);
    assert(final(out)@ =~= old(out)@ + decimal(n as nat));
}

}
verus! {

/// The instruction that starts at the instruction pointer (memory beyond the end reads as zero).
pub open spec fn next_op(m: SamM) -> SamOp {
    decode_spec(grow(m.cells, m.ip + 5).skip(m.ip as int))
}

/// The bytes at the instruction pointer are an instruction.
pub open spec fn next_op_valid(m: SamM) -> bool {
    grow(m.cells, m.ip + 5)[m.ip as int] < NUM_OPCODES
}

/// The memory a program starts with: its bytes, a `Halt` instruction, and the
/// address of that `Halt`, which is where `main` returns to.
pub open spec fn initial_cells(bytes: Seq<u8>) -> Seq<u8> {
    bytes.push(OPCODE_HALT) + be_bytes(bytes.len() as u32)
}

impl SamState {
    /// The machine about to run `main` of `prog`.
    pub fn new(prog: CompiledSamProgram) -> (r: SamState)
        requires
            start_of(prog.fn_start_poss@, "main"@) is Some,
            prog.bytes@.len() + 5 <= u32::MAX,
        ensures
            r.cells@ == initial_cells(prog.bytes@),
            r.instr_ptr == start_of(prog.fn_start_poss@, "main"@).unwrap(),
            !r.halted,
            r.a == 0,
            r.b == prog.bytes@.len() + 1,
            r.c == 0,
            r.x == 0,
    {
        let main = "main".to_owned();
        let instr_ptr = prog.fn_start_pos(&main).unwrap();
        let CompiledSamProgram { bytes, fn_start_poss: _ } = prog;
        let mut cells = bytes;
        let hlt = cells.len() as SamVal;
        cells.push(OPCODE_HALT);
        let b = cells.len() as SamVal;
        push_u32_to_vec(&mut cells, hlt);
        SamState { cells, instr_ptr, halted: false, a: 0, b, c: 0, x: 0 }
    }

    fn reserve_cells(&mut self, max_cell: SamVal)
        requires max_cell < usize::MAX,
        ensures
            final(self).cells@ == grow(old(self).cells@, max_cell as int),
            final(self).instr_ptr == old(self).instr_ptr,
            final(self).halted == old(self).halted,
            final(self).a == old(self).a,
            final(self).b == old(self).b,
            final(self).c == old(self).c,
            final(self).x == old(self).x,
    {
        if self.cells.len() <= max_cell as usize {
            self.cells.resize(max_cell as usize + 1, 0);
            assert(self.cells@ =~= grow(old(self).cells@, max_cell as int));
        }
    }

    /// Reads the word at `at`, making room for it.
    pub fn read_u32_at(&mut self, at: SamVal) -> (r: SamVal)
        requires addr_ok(at + 4),
        ensures
            r == read32(old(self).cells@, at as int),
            final(self).cells@ == grow(old(self).cells@, at + 4),
            final(self).instr_ptr == old(self).instr_ptr,
            final(self).halted == old(self).halted,
            final(self).a == old(self).a,
            final(self).b == old(self).b,
            final(self).c == old(self).c,
            final(self).x == old(self).x,
    {
        self.reserve_cells(at + 4);
        decode_u32(self.cells.as_slice(), at as usize)
    }

    /// Reads the byte at `at`, making room for it and the next one.
    pub fn read_u8_at(&mut self, at: SamVal) -> (r: u8)
        requires addr_ok(at + 1),
        ensures
            r == read8(old(self).cells@, at as int),
            final(self).cells@ == grow(old(self).cells@, at + 1),
            final(self).instr_ptr == old(self).instr_ptr,
            final(self).halted == old(self).halted,
            final(self).a == old(self).a,
            final(self).b == old(self).b,
            final(self).c == old(self).c,
            final(self).x == old(self).x,
    {
        self.reserve_cells(at + 1);
        self.cells[at as usize]
    }

    /// Writes the word `val` at `at`, big-endian.
    pub fn write_u32_at(&mut self, val: SamVal, at: SamVal)
        requires addr_ok(at + 4),
        ensures
            final(self).cells@ == write32(old(self).cells@, at as int, val),
            final(self).instr_ptr == old(self).instr_ptr,
            final(self).halted == old(self).halted,
            final(self).a == old(self).a,
            final(self).b == old(self).b,
            final(self).c == old(self).c,
            final(self).x == old(self).x,
    {
        self.reserve_cells(at + 4);
        let i = at as usize;
        self.cells.set(i, (val >> 24u32) as u8);
        self.cells.set(i + 1, ((val >> 16u32) & 0xffu32) as u8);
        self.cells.set(i + 2, ((val >> 8u32) & 0xffu32) as u8);
        self.cells.set(i + 3, (val & 0xffu32) as u8);
    }

    /// Writes the byte `val` at `at`.
    pub fn write_u8_at(&mut self, val: u8, at: SamVal)
        requires addr_ok(at + 1),
        ensures
            final(self).cells@ == grow(old(self).cells@, at + 1).update(at as int, val),
            final(self).instr_ptr == old(self).instr_ptr,
            final(self).halted == old(self).halted,
            final(self).a == old(self).a,
            final(self).b == old(self).b,
            final(self).c == old(self).c,
            final(self).x == old(self).x,
    {
        self.reserve_cells(at + 1);
        self.cells.set(at as usize, val);
    }

    /// Decodes the instruction at the instruction pointer.
    pub fn decode_next_op(&mut self) -> (r: SamOp)
        requires
            addr_ok(old(self).instr_ptr + 5),
            grow(old(self).cells@, old(self).instr_ptr + 5)[old(self).instr_ptr as int] < NUM_OPCODES,
        ensures
            r == decode_spec(grow(old(self).cells@, old(self).instr_ptr + 5).skip(old(self).instr_ptr as int)),
            final(self).cells@ == grow(old(self).cells@, old(self).instr_ptr + 5),
            final(self).instr_ptr == old(self).instr_ptr,
            final(self).halted == old(self).halted,
            final(self).a == old(self).a,
            final(self).b == old(self).b,
            final(self).c == old(self).c,
            final(self).x == old(self).x,
    {
        self.reserve_cells(self.instr_ptr + 5);
        let ip = self.instr_ptr as usize;
        let op = decode_at(self.cells.as_slice(), ip);
        op
    }
}

/// Decodes the instruction that starts at `at`.
fn decode_at(slice: &[u8], at: usize) -> (r: SamOp)
    requires
        at + 6 <= slice@.len(),
        slice@[at as int] < NUM_OPCODES,
    ensures r == decode_spec(slice@.skip(at as int)),
{
    let mut window: Vec<u8> = Vec::new();
    let n = slice.len();
    let mut i: usize = 0;
    while i < 5
        invariant
            0 <= i <= 5,
            n == slice@.len(),
            at + 6 <= slice@.len(),
            window@ == slice@.subrange(at as int, at + i),
        decreases 5 - i,
    {
        window.push(slice[at + i]);
        assert(window@ =~= slice@.subrange(at as int, at + i + 1));
        i = i + 1;
    }
    let r = decode_sam_op(window.as_slice());
    assert(window@.subrange(1, 5) =~= slice@.skip(at as int).subrange(1, 5));
    r
}

}
verus! {

impl SamState {
    /// Runs an instruction that does not refer to a code address, except for
    /// moving the instruction pointer past it.
    fn run_sop(&mut self, op: &SamSOp, io: &mut BfIo)
        requires
            sop_ok(sam_view(*old(self), *old(io)), *op),
            old(io).input_pos <= old(io).input@.len(),
        ensures
            sam_view(*final(self), *final(io)) == exec_sop(sam_view(*old(self), *old(io)), *op),
            final(io).messages@ == old(io).messages@,
            final(io).input_pos <= final(io).input@.len(),
    {
        match op {
            SamSOp::Halt => {
                self.halted = true;
            },
            SamSOp::SetA(val) => {
                self.a = *val;
            },
            SamSOp::SetX(val) => {
                self.x = *val;
            },
            SamSOp::ReadAAtB => {
                self.a = self.read_u32_at(self.b);
            },
            SamSOp::ReadXAtB => {
                self.x = self.read_u8_at(self.b);
            },
            SamSOp::WriteAAtB => {
                self.write_u32_at(self.a, self.b);
            },
            SamSOp::WriteXAtB => {
                self.write_u8_at(self.x, self.b);
            },
            SamSOp::PrintCharX => {
                io.output.push(self.x);
            },
            SamSOp::StdinX => {
                if io.input_pos < io.input.len() {
                    let c = io.input[io.input_pos];
                    io.input_pos = io.input_pos + 1;
                    // a carriage return is consumed and ignored
                    if c != 13 {
                        self.x = c;
                    }
                } else {
                    self.x = 0;
                }
            },
            SamSOp::AddConstToB(val) => {
                self.b = self.b + *val;
            },
            SamSOp::SubConstFromB(val) => {
                self.b = self.b - *val;
            },
            SamSOp::PrintA => {
                push_decimal(&mut io.output, self.a);
            },
            SamSOp::Ret => {
                let p = self.read_u32_at(self.b);
                self.instr_ptr = p;
            },
            SamSOp::AddU8AtBToX => {
                let v = self.read_u8_at(self.b);
                self.x = ((self.x as u16 + v as u16) % 256) as u8;
            },
            SamSOp::MulU8AtBToX => {
                let v = self.read_u8_at(self.b);
                let x = self.x;
                assert(x * v <= 255 * 255) by (nonlinear_arith)
                    requires x <= 255, v <= 255;
                self.x = ((x as u16 * v as u16) % 256) as u8;
            },
            SamSOp::AddU32AtBToA => {
                let v = self.read_u32_at(self.b);
                self.a = ((self.a as u64 + v as u64) % 0x1_0000_0000) as u32;
            },
            SamSOp::MulU32AtBToA => {
                let v = self.read_u32_at(self.b);
                let a = self.a;
                assert(a * v <= 0xffff_ffff * 0xffff_ffff) by (nonlinear_arith)
                    requires a <= 0xffff_ffff, v <= 0xffff_ffff;
                self.a = ((a as u64 * v as u64) % 0x1_0000_0000) as u32;
            },
            SamSOp::NegA => {
                self.a = if self.a == 0 { 0 } else { u32::MAX - self.a + 1 };
            },
            SamSOp::NegX => {
                self.x = if self.x == 0 { 0 } else { u8::MAX - self.x + 1 };
            },
            SamSOp::MoveXToA => {
                self.a = self.x as u32;
            },
            SamSOp::NotX => {
                if self.x == 0 {
                    self.x = 1;
                } else {
                    self.x = 0;
                }
            },
            SamSOp::AddConstToX(val) => {
                self.x = self.x + *val;
            },
            SamSOp::CmpU8AtBWithX => {
                let atb = self.read_u8_at(self.b);
                self.x = if self.x > atb { 1 } else if self.x == atb { 0 } else { 255 };
            },
            SamSOp::CmpU32AtBWithA => {
                let atb = self.read_u32_at(self.b);
                self.x = if self.a > atb { 1 } else if self.a == atb { 0 } else { 255 };
            },
            SamSOp::SetXToU8AtBDivByX => {
                let atb = self.read_u8_at(self.b);
                self.x = atb / self.x;
            },
            SamSOp::SetAToU32AtBDivByA => {
                let atb = self.read_u32_at(self.b);
                self.a = atb / self.a;
            },
            SamSOp::SetXToU8AtBModX => {
                let atb = self.read_u8_at(self.b);
                self.x = atb % self.x;
            },
            SamSOp::SetAToU32AtBModA => {
                let atb = self.read_u32_at(self.b);
                self.a = atb % self.a;
            },
            SamSOp::CopyAToB => {
                self.b = self.a;
            },
            SamSOp::CopyBToA => {
                self.a = self.b;
            },
            SamSOp::SwapBAndC => {
                let t = self.b;
                self.b = self.c;
                self.c = t;
            },
        }
    }

    /// Runs one instruction. A halted machine refuses to run and stays as it is.
    pub fn run_op(&mut self, op: &SamOp, io: &mut BfIo) -> (r: Result<(), SamRunOpError>)
        requires
            !old(self).halted ==> op_ok(sam_view(*old(self), *old(io)), *op),
            old(io).input_pos <= old(io).input@.len(),
        ensures
            old(self).halted ==> (r matches Err(SamRunOpError::Halted)) && sam_view(*final(self), *final(io)) == sam_view(*old(self), *old(io)),
            !old(self).halted ==> r is Ok && sam_view(*final(self), *final(io)) == exec_op(sam_view(*old(self), *old(io)), *op),
            final(io).messages@ == old(io).messages@,
            final(io).input_pos <= final(io).input@.len(),
    {
        if self.halted {
            return Err(SamRunOpError::Halted);
        }
        match op {
            SamOp::Simple(sop) => {
                let ip = self.instr_ptr;
                self.run_sop(sop, io);
                if *sop != SamSOp::Ret {
                    self.instr_ptr = ip + sop.len() as SamVal;
                }
            },
            SamOp::Call(f) => {
                self.write_u32_at(self.instr_ptr + 5, self.b);
                self.instr_ptr = *f;
            },
            SamOp::Jmp(offset) => {
                let new_instr_ptr = self.instr_ptr as SamIVal + *offset;
                self.instr_ptr = new_instr_ptr as SamVal;
            },
            SamOp::JmpIfX(offset) => {
                if self.x != 0 {
                    let new_instr_ptr = self.instr_ptr as SamIVal + *offset;
                    self.instr_ptr = new_instr_ptr as SamVal;
                } else {
                    self.instr_ptr = self.instr_ptr + 5;
                }
            },
        }
        Ok(())
    }
}

}
verus! {

/// The fault an instruction would meet, if any (the machine is not halted).
pub open spec fn fault_of(m: SamM, op: SamOp) -> Option<SamRunOpError> {
    if op_ok(m, op) {
        None
    } else {
        match op {
            SamOp::Simple(s) => match s {
                SamSOp::SetXToU8AtBDivByX | SamSOp::SetXToU8AtBModX => if addr_ok(m.b + 1) && m.x == 0 {
                    Some(SamRunOpError::DivisionByZero)
                } else {
                    Some(SamRunOpError::Overflow)
                },
                SamSOp::SetAToU32AtBDivByA | SamSOp::SetAToU32AtBModA => if addr_ok(m.b + 4) && m.a == 0 {
                    Some(SamRunOpError::DivisionByZero)
                } else {
                    Some(SamRunOpError::Overflow)
                },
                _ => Some(SamRunOpError::Overflow),
            },
            SamOp::Call(_) => Some(SamRunOpError::Overflow),
            SamOp::Jmp(o) | SamOp::JmpIfX(o) => if m.x != 0 || op is Jmp {
                if jump_target(m, o) < 0 { Some(SamRunOpError::JumpedLeftOfTape) } else { Some(SamRunOpError::Overflow) }
            } else {
                Some(SamRunOpError::Overflow)
            },
        }
    }
}

/// One step of the machine: decode the instruction at the instruction pointer
/// and run it. The result is the new machine and the error met, if any.
pub open spec fn sam_step(m: SamM) -> (SamM, Option<SamRunOpError>) {
    if !addr_ok(m.ip + 5) {
        (m, Some(SamRunOpError::Overflow))
    } else {
        let m1 = SamM { cells: grow(m.cells, m.ip + 5), ..m };
        if !next_op_valid(m) {
            (m1, Some(SamRunOpError::InvalidOpcode))
        } else if m.halted {
            (m1, Some(SamRunOpError::Halted))
        } else {
            match fault_of(m1, next_op(m)) {
                Some(e) => (m1, Some(e)),
                None => (exec_op(m1, next_op(m)), None),
            }
        }
    }
}

/// Steps until the machine halts, an error is met, or `fuel` steps have run.
pub open spec fn sam_run(m: SamM, fuel: nat) -> (SamM, Option<SamRunOpError>)
    decreases fuel,
{
    if m.halted {
        (m, None)
    } else if fuel == 0 {
        (m, Some(SamRunOpError::OutOfFuel))
    } else {
        let (m2, e) = sam_step(m);
        if e is Some {
            (m2, e)
        } else {
            sam_run(m2, (fuel - 1) as nat)
        }
    }
}

pub open spec fn result_of(e: Option<SamRunOpError>, r: Result<(), SamRunOpError>) -> bool {
    match e {
        None => r is Ok,
        Some(err) => r is Err && r->Err_0 == err,
    }
}

impl SamState {
    fn fault_of(&self, op: &SamOp, io: &BfIo) -> (r: Option<SamRunOpError>)
        ensures r == fault_of(sam_view(*self, *io), *op),
    {
        let ghost m = sam_view(*self, *io);
        let b4 = (self.b as u64) + 4 <= u32::MAX as u64 && (self.b as u64) + 4 < usize::MAX as u64;
        let b1 = (self.b as u64) + 1 <= u32::MAX as u64 && (self.b as u64) + 1 < usize::MAX as u64;
        assert(b4 == addr_ok(m.b + 4));
        assert(b1 == addr_ok(m.b + 1));
        match op {
            SamOp::Simple(s) => {
                let ok = match s {
                    SamSOp::ReadAAtB | SamSOp::WriteAAtB | SamSOp::AddU32AtBToA | SamSOp::MulU32AtBToA
                    | SamSOp::Ret | SamSOp::CmpU32AtBWithA => b4,
                    SamSOp::ReadXAtB | SamSOp::WriteXAtB | SamSOp::AddU8AtBToX | SamSOp::MulU8AtBToX
                    | SamSOp::CmpU8AtBWithX => b1,
                    SamSOp::SetXToU8AtBDivByX | SamSOp::SetXToU8AtBModX => {
                        if !b1 {
                            return Some(SamRunOpError::Overflow);
                        }
                        if self.x == 0 {
                            return Some(SamRunOpError::DivisionByZero);
                        }
                        true
                    },
                    SamSOp::SetAToU32AtBDivByA | SamSOp::SetAToU32AtBModA => {
                        if !b4 {
                            return Some(SamRunOpError::Overflow);
                        }
                        if self.a == 0 {
                            return Some(SamRunOpError::DivisionByZero);
                        }
                        true
                    },
                    SamSOp::AddConstToB(v) => self.b as u64 + *v as u64 <= u32::MAX as u64,
                    SamSOp::SubConstFromB(v) => self.b >= *v,
                    SamSOp::AddConstToX(v) => self.x as u16 + *v as u16 <= u8::MAX as u16,
                    _ => true,
                };
                let len_ok = *s == SamSOp::Ret || self.instr_ptr as u64 + s.len() as u64 <= u32::MAX as u64;
                if ok && len_ok { None } else { Some(SamRunOpError::Overflow) }
            },
            SamOp::Call(_) => {
                if self.instr_ptr as u64 + 5 <= u32::MAX as u64 && b4 { None } else { Some(SamRunOpError::Overflow) }
            },
            SamOp::Jmp(o) => {
                let t = self.instr_ptr as i32 as i64 + *o as i64;
                assert(t == jump_target(m, *o));
                if t < 0 {
                    Some(SamRunOpError::JumpedLeftOfTape)
                } else if t > i32::MAX as i64 {
                    Some(SamRunOpError::Overflow)
                } else {
                    None
                }
            },
            SamOp::JmpIfX(o) => {
                if self.x != 0 {
                    let t = self.instr_ptr as i32 as i64 + *o as i64;
                    assert(t == jump_target(m, *o));
                    if t < 0 {
                        Some(SamRunOpError::JumpedLeftOfTape)
                    } else if t > i32::MAX as i64 {
                        Some(SamRunOpError::Overflow)
                    } else {
                        None
                    }
                } else if self.instr_ptr as u64 + 5 <= u32::MAX as u64 {
                    None
                } else {
                    Some(SamRunOpError::Overflow)
                }
            },
        }
    }
}

}
verus! {

impl SamState {
    /// Decodes and runs the instruction at the instruction pointer.
    pub fn step(&mut self, io: &mut BfIo) -> (r: Result<(), SamRunOpError>)
        requires old(io).input_pos <= old(io).input@.len(),
        ensures
            sam_view(*final(self), *final(io)) == sam_step(sam_view(*old(self), *old(io))).0,
            result_of(sam_step(sam_view(*old(self), *old(io))).1, r),
            final(io).messages@ == old(io).messages@,
            final(io).input_pos <= final(io).input@.len(),
    {
        if !(self.instr_ptr as u64 + 5 <= u32::MAX as u64 && (self.instr_ptr as u64) + 5 < usize::MAX as u64) {
            return Err(SamRunOpError::Overflow);
        }
        self.reserve_cells(self.instr_ptr + 5);
        if self.cells[self.instr_ptr as usize] >= NUM_OPCODES {
            return Err(SamRunOpError::InvalidOpcode);
        }
        let op = decode_at(self.cells.as_slice(), self.instr_ptr as usize);
        if self.halted {
            return Err(SamRunOpError::Halted);
        }
        match self.fault_of(&op, io) {
            Some(e) => Err(e),
            None => self.run_op(&op, io),
        }
    }

    /// Runs the machine until it halts, an error is met, or `fuel` steps have run.
    pub fn run_f(&mut self, io: &mut BfIo, fuel: u64) -> (r: Result<(), SamRunOpError>)
        requires old(io).input_pos <= old(io).input@.len(),
        ensures
            sam_view(*final(self), *final(io)) == sam_run(sam_view(*old(self), *old(io)), fuel as nat).0,
            result_of(sam_run(sam_view(*old(self), *old(io)), fuel as nat).1, r),
            final(io).messages@ == old(io).messages@,
    {
        let mut f = fuel;
        while !self.halted
            invariant
                io.input_pos <= io.input@.len(),
                io.messages@ == old(io).messages@,
                sam_run(sam_view(*old(self), *old(io)), fuel as nat) == sam_run(sam_view(*self, *io), f as nat),
            decreases f,
        {
            if f == 0 {
                return Err(SamRunOpError::OutOfFuel);
            }
            let r = self.step(io);
            if r.is_err() {
                return r;
            }
            f = f - 1;
        }
        Ok(())
    }

    /// Runs the machine until it halts or an error is met (or `u64::MAX` steps have run).
    pub fn run(&mut self, io: &mut BfIo) -> (r: Result<(), SamRunOpError>)
        requires old(io).input_pos <= old(io).input@.len(),
        ensures
            sam_view(*final(self), *final(io)) == sam_run(sam_view(*old(self), *old(io)), u64::MAX as nat).0,
            result_of(sam_run(sam_view(*old(self), *old(io)), u64::MAX as nat).1, r),
            final(io).messages@ == old(io).messages@,
    {
        self.run_f(io, u64::MAX)
    }
}

}
verus! {

/// A step runs the instruction whose encoding sits at the instruction pointer:
/// the machine decodes what the encoder wrote.
pub proof fn lemma_step_runs_encoded_op(m: SamM, op: SamOp)
    requires
        !m.halted,
        addr_ok(m.ip + 5),
        grow(m.cells, m.ip + 5).skip(m.ip as int).take(op_encoding(op).len() as int) == op_encoding(op),
        op_ok(SamM { cells: grow(m.cells, m.ip + 5), ..m }, op),
    ensures
        sam_step(m) == (exec_op(SamM { cells: grow(m.cells, m.ip + 5), ..m }, op), None::<SamRunOpError>),
{
    let s = grow(m.cells, m.ip + 5).skip(m.ip as int);
    let e = op_encoding(op);
    let rest = s.skip(e.len() as int);
    assert(s =~= e + rest);
    lemma_decode_encode(op, rest);
    assert(next_op(m) == op);
}

}
verus! {

/// Division and remainder on words: with `A` not zero, `SetAToU32AtBDivByA`
/// leaves in `A` the quotient `q` and `SetAToU32AtBModA` the remainder `r` of
/// the word at `B` by the old `A`: the word is `q * A + r` with `r < A`.
#[verifier::spinoff_prover]
pub proof fn lemma_word_div_mod(m: SamM)
    requires
        m.a != 0,
    ensures
        ({
            let w = read32(m.cells, m.b as int) as int;
            let q = exec_op(m, SamOp::Simple(SamSOp::SetAToU32AtBDivByA)).a as int;
            let r = exec_op(m, SamOp::Simple(SamSOp::SetAToU32AtBModA)).a as int;
            &&& 0 <= r < m.a
            &&& w == q * m.a + r
        }),
{
    let w = read32(m.cells, m.b as int) as int;
    let a = m.a as int;
    assert(w == (w / a) * a + w % a && 0 <= w % a < a) by (nonlinear_arith)
        requires a > 0, w >= 0;
    assert(w / a <= w) by (nonlinear_arith)
        requires a > 0, w >= 0;
}

/// The same on bytes, with `X`: `SetXToU8AtBDivByX` and `SetXToU8AtBModX`
/// leave the quotient and remainder of the byte at `B` by the old `X`.
#[verifier::spinoff_prover]
pub proof fn lemma_byte_div_mod(m: SamM)
    requires
        m.x != 0,
    ensures
        ({
            let w = read8(m.cells, m.b as int) as int;
            let q = exec_op(m, SamOp::Simple(SamSOp::SetXToU8AtBDivByX)).x as int;
            let r = exec_op(m, SamOp::Simple(SamSOp::SetXToU8AtBModX)).x as int;
            &&& 0 <= r < m.x
            &&& w == q * m.x + r
        }),
{
    let w = read8(m.cells, m.b as int) as int;
    let x = m.x as int;
    assert(w == (w / x) * x + w % x && 0 <= w % x < x) by (nonlinear_arith)
        requires x > 0, w >= 0;
    assert(w / x <= w) by (nonlinear_arith)
        requires x > 0, w >= 0;
}

/// Negation and comparison on words: `NegA` leaves in `A` the number that
/// added to the old `A` gives 0 modulo 2^32; `CmpU32AtBWithA` sets `X` to 1, 0
/// or 255 (that is, -1) as `A` is greater than, equal to or lower than the word
/// at `B`.
pub proof fn lemma_word_neg_order(m: SamM)
    ensures
        (exec_op(m, SamOp::Simple(SamSOp::NegA)).a as int + m.a as int) % 0x1_0000_0000 == 0,
        ({
            let w = read32(m.cells, m.b as int) as int;
            let x = exec_op(m, SamOp::Simple(SamSOp::CmpU32AtBWithA)).x;
            &&& (x == 1 <==> m.a > w)
            &&& (x == 0 <==> m.a == w)
            &&& (x == 255 <==> m.a < w)
        }),
{
    let a = m.a as int;
    if a == 0 {
        assert((0x1_0000_0000 - a) % 0x1_0000_0000 == 0);
    } else {
        assert((0x1_0000_0000 - a) % 0x1_0000_0000 == 0x1_0000_0000 - a);
    }
}

/// The same on bytes, with `X`: `NegX` gives the inverse modulo 256, and
/// `CmpU8AtBWithX` sets `X` to 1, 0 or 255 as the old `X` is greater than,
/// equal to or lower than the byte at `B`.
pub proof fn lemma_byte_neg_order(m: SamM)
    ensures
        (exec_op(m, SamOp::Simple(SamSOp::NegX)).x as int + m.x as int) % 256 == 0,
        ({
            let w = read8(m.cells, m.b as int) as int;
            let x = exec_op(m, SamOp::Simple(SamSOp::CmpU8AtBWithX)).x;
            &&& (x == 1 <==> m.x > w)
            &&& (x == 0 <==> m.x == w)
            &&& (x == 255 <==> m.x < w)
        }),
{
    let a = m.x as int;
    if a == 0 {
        assert((256 - a) % 256 == 0);
    } else {
        assert((256 - a) % 256 == 256 - a);
    }
}

}
