use brainpluck::bf::BfIo;
use brainpluck::hir2sam::SamBlock;
use brainpluck::linker::{link_sam_fns, CompiledSamProgram, SamFn, SamLOp};
use brainpluck::sam::{push_u32_to_vec, SamOp, SamRunOpError, SamSOp, SamState};

fn program(ops: &[SamOp]) -> CompiledSamProgram {
    let mut bytes = Vec::new();
    for op in ops {
        bytes.extend(op.encode());
    }
    CompiledSamProgram { bytes, fn_start_poss: vec![("main".to_string(), 0)] }
}

fn run_program(ops: &[SamOp], input: &str) -> (SamState, BfIo, Result<(), SamRunOpError>) {
    let mut state = SamState::new(program(ops));
    let mut io = BfIo::new(input.as_bytes().to_vec());
    let r = state.run(&mut io);
    (state, io, r)
}

#[test]
fn encodes_instructions() {
    assert_eq!(SamOp::Simple(SamSOp::Halt).encode(), vec![0]);
    assert_eq!(SamOp::Simple(SamSOp::SetX(3)).encode(), vec![1, 3]);
    assert_eq!(SamOp::Simple(SamSOp::SetA(0x0102_0304)).encode(), vec![2, 1, 2, 3, 4]);
    assert_eq!(SamOp::Call(0x10).encode(), vec![12, 0, 0, 0, 0x10]);
    assert_eq!(SamOp::Jmp(-2).encode(), vec![14, 0xff, 0xff, 0xff, 0xfe]);
    assert_eq!(SamOp::JmpIfX(300).encode(), vec![15, 0, 0, 1, 44]);
    assert_eq!(SamOp::Simple(SamSOp::SwapBAndC).encode(), vec![33]);
}

#[test]
fn instruction_lengths() {
    assert_eq!(SamSOp::Halt.len(), 1);
    assert_eq!(SamSOp::AddConstToX(9).len(), 2);
    assert_eq!(SamSOp::SubConstFromB(9).len(), 5);
    assert_eq!(SamOp::Call(7).len(), 5);
    assert_eq!(SamOp::Jmp(7).len(), 5);
    assert_eq!(SamOp::Simple(SamSOp::NegA).len(), 1);
}

#[test]
fn pushes_words_big_endian() {
    let mut v = vec![9u8];
    push_u32_to_vec(&mut v, 0xdead_beef);
    assert_eq!(v, vec![9, 0xde, 0xad, 0xbe, 0xef]);
}

#[test]
fn decodes_what_was_encoded() {
    let ops = [
        SamOp::Simple(SamSOp::SetA(123456)),
        SamOp::Jmp(-7),
        SamOp::JmpIfX(9),
        SamOp::Call(77),
        SamOp::Simple(SamSOp::AddConstToX(5)),
        SamOp::Simple(SamSOp::CmpU32AtBWithA),
    ];
    for op in ops.iter() {
        let mut state = SamState::new(program(&[*op]));
        assert_eq!(state.decode_next_op(), *op);
    }
}

#[test]
fn new_state_sets_up_the_stack() {
    let state = SamState::new(program(&[SamOp::Simple(SamSOp::Halt), SamOp::Simple(SamSOp::Halt)]));
    assert_eq!(state.cells, vec![0, 0, 0, 0, 0, 0, 2]);
    assert_eq!(state.instr_ptr, 0);
    assert_eq!(state.b, 3);
    assert!(!state.halted);
}

#[test]
fn prints_a_number_and_a_char() {
    let (state, io, r) = run_program(
        &[
            SamOp::Simple(SamSOp::SetA(1234)),
            SamOp::Simple(SamSOp::PrintA),
            SamOp::Simple(SamSOp::SetX(b'\n')),
            SamOp::Simple(SamSOp::PrintCharX),
            SamOp::Simple(SamSOp::Halt),
        ],
        "",
    );
    assert!(r.is_ok());
    assert!(state.halted);
    assert_eq!(io.output, b"1234\n".to_vec());
}

#[test]
fn reads_input_skipping_carriage_returns() {
    let (_, io, r) = run_program(
        &[
            SamOp::Simple(SamSOp::StdinX),
            SamOp::Simple(SamSOp::PrintCharX),
            SamOp::Simple(SamSOp::StdinX),
            SamOp::Simple(SamSOp::PrintCharX),
            SamOp::Simple(SamSOp::StdinX),
            SamOp::Simple(SamSOp::PrintCharX),
            SamOp::Simple(SamSOp::StdinX),
            SamOp::Simple(SamSOp::MoveXToA),
            SamOp::Simple(SamSOp::PrintA),
            SamOp::Simple(SamSOp::Halt),
        ],
        "a\rb",
    );
    assert!(r.is_ok());
    assert_eq!(io.output, b"aab0".to_vec());
}

#[test]
fn arithmetic_wraps_and_compares() {
    let (state, io, r) = run_program(
        &[
            SamOp::Simple(SamSOp::SetA(5)),
            SamOp::Simple(SamSOp::NegA),
            SamOp::Simple(SamSOp::PrintA),
            SamOp::Simple(SamSOp::SetX(200)),
            SamOp::Simple(SamSOp::WriteXAtB),
            SamOp::Simple(SamSOp::AddU8AtBToX),
            SamOp::Simple(SamSOp::MoveXToA),
            SamOp::Simple(SamSOp::PrintA),
            SamOp::Simple(SamSOp::SetX(100)),
            SamOp::Simple(SamSOp::CmpU8AtBWithX),
            SamOp::Simple(SamSOp::Halt),
        ],
        "",
    );
    assert!(r.is_ok());
    assert_eq!(io.output, b"4294967291144".to_vec());
    // X (100) is less than the byte at B (200).
    assert_eq!(state.x, 255);
}

#[test]
fn division_by_zero_is_reported() {
    let (_, _, r) = run_program(
        &[SamOp::Simple(SamSOp::SetX(0)), SamOp::Simple(SamSOp::SetXToU8AtBDivByX), SamOp::Simple(SamSOp::Halt)],
        "",
    );
    assert!(matches!(r, Err(SamRunOpError::DivisionByZero)));
}

#[test]
fn a_halted_machine_refuses_to_run() {
    let mut state = SamState::new(program(&[SamOp::Simple(SamSOp::Halt)]));
    let mut io = BfIo::new(Vec::new());
    assert!(state.run(&mut io).is_ok());
    let before = state.cells.clone();
    assert!(matches!(state.run_op(&SamOp::Simple(SamSOp::SetX(1)), &mut io), Err(SamRunOpError::Halted)));
    assert_eq!(state.x, 0);
    assert_eq!(state.cells, before);
    assert!(matches!(state.step(&mut io), Err(SamRunOpError::Halted)));
}

#[test]
fn invalid_opcode_is_reported() {
    let mut state = SamState::new(CompiledSamProgram { bytes: vec![200], fn_start_poss: vec![("main".to_string(), 0)] });
    let mut io = BfIo::new(Vec::new());
    assert!(matches!(state.run(&mut io), Err(SamRunOpError::InvalidOpcode)));
}

#[test]
fn jumping_left_of_the_tape_is_reported() {
    let (_, _, r) = run_program(&[SamOp::Jmp(-1)], "");
    assert!(matches!(r, Err(SamRunOpError::JumpedLeftOfTape)));
}

#[test]
fn endless_loop_runs_out_of_fuel() {
    let mut state = SamState::new(program(&[SamOp::Jmp(0)]));
    let mut io = BfIo::new(Vec::new());
    assert!(matches!(state.run_f(&mut io, 100), Err(SamRunOpError::OutOfFuel)));
}

fn block(ops: Vec<SamLOp>, next: Option<usize>) -> SamBlock {
    SamBlock { ops, next_block_index: next }
}

fn sam_fn(name: &str, blocks: Vec<SamBlock>) -> SamFn {
    SamFn { name: name.to_string(), arg_sizes: vec![], ret_size: 0, blocks }
}

#[test]
fn links_blocks_in_successor_order() {
    let f = sam_fn(
        "main",
        vec![
            block(vec![SamLOp::Simple(SamSOp::SetX(65)), SamLOp::Simple(SamSOp::PrintCharX)], Some(2)),
            block(vec![SamLOp::Simple(SamSOp::SetX(66)), SamLOp::Simple(SamSOp::PrintCharX), SamLOp::Simple(SamSOp::Halt)], None),
            block(vec![SamLOp::Simple(SamSOp::SetX(1)), SamLOp::JmpToBlockIfX(1)], None),
        ],
    );
    let linked = link_sam_fns(vec![f]);
    assert_eq!(linked.bytes, vec![1, 65, 7, 1, 1, 15, 0, 0, 0, 5, 1, 66, 7, 0]);
    assert_eq!(linked.fn_start_poss, vec![("main".to_string(), 0)]);
    let mut state = SamState::new(linked);
    let mut io = BfIo::new(Vec::new());
    assert!(state.run(&mut io).is_ok());
    assert_eq!(io.output, b"AB".to_vec());
}

#[test]
fn links_a_jump_to_a_successor_laid_out_elsewhere() {
    let f = sam_fn(
        "main",
        vec![
            block(vec![SamLOp::Simple(SamSOp::SetX(1))], Some(2)),
            block(vec![SamLOp::Simple(SamSOp::Halt)], None),
            block(vec![SamLOp::Simple(SamSOp::PrintCharX)], Some(1)),
        ],
    );
    let linked = link_sam_fns(vec![f]);
    // order 0, 2, 1: only fall-throughs, no jump needed
    assert_eq!(linked.bytes, vec![1, 1, 7, 0]);
    let g = sam_fn(
        "main",
        vec![
            block(vec![SamLOp::Simple(SamSOp::SetX(1))], Some(1)),
            block(vec![SamLOp::Simple(SamSOp::Halt)], None),
            block(vec![SamLOp::Simple(SamSOp::PrintCharX)], Some(0)),
        ],
    );
    let linked = link_sam_fns(vec![g]);
    // order 0, 1, 2: block 2 jumps back to block 0
    assert_eq!(linked.bytes, vec![1, 1, 0, 7, 14, 0xff, 0xff, 0xff, 0xfc]);
}

#[test]
fn links_calls_between_functions() {
    let main = sam_fn("main", vec![block(vec![SamLOp::Call("f".to_string()), SamLOp::Simple(SamSOp::Halt)], None)]);
    let f = sam_fn(
        "f",
        vec![block(vec![SamLOp::Simple(SamSOp::SetA(7)), SamLOp::Simple(SamSOp::PrintA), SamLOp::Simple(SamSOp::Ret)], None)],
    );
    let linked = link_sam_fns(vec![main, f]);
    assert_eq!(linked.fn_start_poss, vec![("main".to_string(), 0), ("f".to_string(), 6)]);
    assert_eq!(linked.bytes[0..6].to_vec(), vec![12, 0, 0, 0, 6, 0]);
    let mut state = SamState::new(linked);
    let mut io = BfIo::new(Vec::new());
    assert!(state.run(&mut io).is_ok());
    assert_eq!(io.output, b"7".to_vec());
}

#[test]
fn looks_up_function_starts() {
    let prog = CompiledSamProgram { bytes: vec![], fn_start_poss: vec![("a".to_string(), 3), ("b".to_string(), 9)] };
    assert_eq!(prog.fn_start_pos(&"b".to_string()), Some(9));
    assert_eq!(prog.fn_start_pos(&"c".to_string()), None);
}

#[test]
fn linked_op_lengths() {
    assert_eq!(SamLOp::Call("x".to_string()).len(), 5);
    assert_eq!(SamLOp::JmpToBlockIfX(3).len(), 5);
    assert_eq!(SamLOp::Simple(SamSOp::SetX(1)).len(), 2);
}
