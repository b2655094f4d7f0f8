use brainpluck::bf::{get_optimized_bf_ops, BfIo, BfOp, BfState};
use brainpluck::cpu::{Cpu, CpuConfig, TrackId};
use brainpluck::lir::Lir;
use brainpluck::lir2bf::lir2bf;

fn test_parsed_bf_prog(prog: &Vec<BfOp>, i: &str, o: &str, cfg: Option<&CpuConfig>) {
    let prog = get_optimized_bf_ops(prog);
    let mut state = BfState::new();
    let mut io = BfIo::new(i.as_bytes().to_vec());
    state
        .run_ops(&prog, &mut io, cfg, None)
        .unwrap_or_else(|e| panic!("Error: {:?}", e));
    assert_eq!(String::from_utf8_lossy(&io.output), o);
    if let Some(cfg) = cfg {
        assert!(state.check_scratch_is_empty(cfg));
    }
}

fn test_lir_prog(prog: &Vec<Lir>, i: &str, o: &str, cfg: &CpuConfig) {
    test_parsed_bf_prog(&lir2bf(prog), i, o, Some(cfg));
}

#[test]
fn test_add_const_to_register() {
    let mut cfg = CpuConfig::new();
    let register = cfg.add_register_track(TrackId::Register1, 4);
    let scratch = cfg.add_scratch_track(TrackId::Scratch1);
    let mut cpu = Cpu::new(&cfg);

    cpu.add_const_to_register(register, 103050u64, scratch);
    cpu.add_const_to_register(register, 20406u64, scratch);

    cpu.moveprint_byte(register.at(0), scratch);
    cpu.print_text(", ", scratch);
    cpu.moveprint_byte(register.at(1), scratch);
    cpu.print_text(", ", scratch);
    cpu.moveprint_byte(register.at(2), scratch);
    cpu.print_text(", ", scratch);
    cpu.moveprint_byte(register.at(3), scratch);

    test_lir_prog(&cpu.into_ops(), "", "0, 1, 226, 64", &cfg);
}

#[test]
fn test_print_register_hex() {
    let mut cfg = CpuConfig::new();
    let register = cfg.add_register_track(TrackId::Register1, 4);
    let scratch = cfg.add_scratch_track(TrackId::Scratch1);
    let mut cpu = Cpu::new(&cfg);

    cpu.set_register(register, 123456u64);
    cpu.moveprint_register_hex(register, scratch);

    test_lir_prog(&cpu.into_ops(), "", "0x0001E240", &cfg);
}
