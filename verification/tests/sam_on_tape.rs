use brainpluck::bf::{get_optimized_bf_ops, BfIo, BfState};
use brainpluck::linker::CompiledSamProgram;
use brainpluck::lir2bf::lir2bf;
use brainpluck::sam::{SamOp, SamSOp, SamState};
use brainpluck::sam2lir::sam2lir;

fn program(ops: &[SamOp]) -> CompiledSamProgram {
    let mut bytes = Vec::new();
    for op in ops {
        bytes.extend(op.encode());
    }
    CompiledSamProgram { bytes, fn_start_poss: vec![("main".to_string(), 0)] }
}

fn run_on_tape(ops: &[SamOp], input: &str) -> String {
    let (lir, cfg) = sam2lir(program(ops));
    let prog = get_optimized_bf_ops(&lir2bf(&lir));
    let mut state = BfState::new();
    let mut io = BfIo::new(input.as_bytes().to_vec());
    state.run_ops(&prog, &mut io, Some(&cfg), None).unwrap_or_else(|e| panic!("Error: {:?}", e));
    String::from_utf8_lossy(&io.output).to_string()
}

fn run_directly(ops: &[SamOp], input: &str) -> String {
    let mut state = SamState::new(program(ops));
    let mut io = BfIo::new(input.as_bytes().to_vec());
    state.run(&mut io).unwrap_or_else(|e| panic!("Error: {:?}", e));
    String::from_utf8_lossy(&io.output).to_string()
}

#[test]
fn interpreter_prints_characters() {
    let ops = [
        SamOp::Simple(SamSOp::SetX(b'H')),
        SamOp::Simple(SamSOp::PrintCharX),
        SamOp::Simple(SamSOp::SetX(b'i')),
        SamOp::Simple(SamSOp::PrintCharX),
        SamOp::Simple(SamSOp::Halt),
    ];
    assert_eq!(run_on_tape(&ops, ""), "Hi");
    assert_eq!(run_directly(&ops, ""), "Hi");
}

#[test]
fn interpreter_reads_and_writes_memory_at_b() {
    let ops = [
        SamOp::Simple(SamSOp::SetA(0x4142_4344)),
        SamOp::Simple(SamSOp::WriteAAtB),
        SamOp::Simple(SamSOp::ReadXAtB),
        SamOp::Simple(SamSOp::PrintCharX),
        SamOp::Simple(SamSOp::AddConstToB(3)),
        SamOp::Simple(SamSOp::ReadXAtB),
        SamOp::Simple(SamSOp::PrintCharX),
        SamOp::Simple(SamSOp::Halt),
    ];
    assert_eq!(run_on_tape(&ops, ""), "AD");
    assert_eq!(run_directly(&ops, ""), "AD");
}

#[test]
fn interpreter_echoes_input_and_branches() {
    let ops = [
        SamOp::Simple(SamSOp::StdinX),
        SamOp::Simple(SamSOp::PrintCharX),
        SamOp::Simple(SamSOp::SetX(0)),
        SamOp::JmpIfX(2),
        SamOp::Simple(SamSOp::SetX(b'!')),
        SamOp::Simple(SamSOp::PrintCharX),
        SamOp::Simple(SamSOp::Halt),
    ];
    assert_eq!(run_on_tape(&ops, "q"), "q!");
    assert_eq!(run_directly(&ops, "q"), "q!");
}

#[test]
fn interpreter_prints_a_in_decimal() {
    let ops = [
        SamOp::Simple(SamSOp::SetA(1234)),
        SamOp::Simple(SamSOp::PrintA),
        SamOp::Simple(SamSOp::Halt),
    ];
    assert_eq!(run_directly(&ops, ""), run_on_tape(&ops, ""));
}
