use brainpluck::bf::{get_optimized_bf_ops, BfIo, BfOp, BfState};
use brainpluck::cpu::{Cpu, CpuConfig, TrackId};
use brainpluck::lir::Lir;
use brainpluck::lir2bf::lir2bf;

fn test_parsed_bf_prog(prog: &Vec<BfOp>, i: &str, o: &str, cfg: Option<&CpuConfig>) {
    let prog = get_optimized_bf_ops(prog);
    let mut state = BfState::new();
    let mut io = BfIo::new(i.as_bytes().to_vec());
    state
        .run_ops(&prog, &mut io, cfg, None)
        .unwrap_or_else(|e| panic!("Error: {:?}", e));
    assert_eq!(String::from_utf8_lossy(&io.output), o);
    if let Some(cfg) = cfg {
        assert!(state.check_scratch_is_empty(cfg));
    }
}

fn test_lir_prog(prog: &Vec<Lir>, i: &str, o: &str, cfg: &CpuConfig) {
    test_parsed_bf_prog(&lir2bf(prog), i, o, Some(cfg));
}

#[test]
fn test_unpack_and_print_register() {
    let mut cfg = CpuConfig::new();
    let mut register_builder = cfg.build_register_track(TrackId::Register1);
    let register = register_builder.add_register(4);
    let binregister = register_builder.add_binregister(32);
    let scratch = cfg.add_scratch_track(TrackId::Scratch1);
    let mut cpu = Cpu::new(&cfg);

    cpu.add_const_to_register(register, 0b111111111101010101010101u64, scratch);
    cpu.unpack_register(register, binregister, scratch, false);
    cpu.print_binregister_in_binary(binregister, scratch);

    test_lir_prog(&cpu.into_ops(), "", "0b00000000111111111101010101010101", &cfg);
}

#[test]
fn test_ifzero_binregister() {
    let mut cfg = CpuConfig::new();
    let mut register_builder = cfg.build_register_track(TrackId::Register1);
    let binregister = register_builder.add_binregister(32);
    let scratch = cfg.add_scratch_track(TrackId::Scratch1);
    let mut cpu = Cpu::new(&cfg);

    cpu.set_binregister(binregister, 0b1000000000000000000000u64, scratch);
    cpu.if_binregister_nonzero_else(
        binregister,
        scratch,
        |cpu, scratch| {
            cpu.breakpoint();
            cpu.print_text("1", scratch);
        },
        |cpu, _| {
            cpu.crash("oh no".to_string());
        },
    );
    cpu.clr_binregister(binregister, scratch);
    cpu.if_binregister_nonzero_else(
        binregister,
        scratch,
        |cpu, _| {
            cpu.crash("oh no".to_string());
        },
        |cpu, scratch| {
            cpu.print_text("1", scratch);
        },
    );

    test_lir_prog(&cpu.into_ops(), "", "11", &cfg);
}

#[test]
fn test_add_binregisters() {
    let mut cfg = CpuConfig::new();
    let mut register_builder = cfg.build_register_track(TrackId::Register1);
    let reg1 = register_builder.add_binregister(32);
    let reg2 = register_builder.add_binregister(32);
    let scratch = cfg.add_scratch_track(TrackId::Scratch1);
    let mut cpu = Cpu::new(&cfg);

    cpu.set_binregister(reg1, 789742058u64, scratch);
    cpu.set_binregister(reg2, 391490498u64, scratch);
    cpu.add_binregister_to_binregister(reg1, reg2, scratch);
    cpu.print_binregister_in_binary(reg2, scratch);

    test_lir_prog(&cpu.into_ops(), "", "0b01000110011010000010110110101100", &cfg);
}

#[test]
fn test_sub_binregisters() {
    let mut cfg = CpuConfig::new();
    let mut register_builder = cfg.build_register_track(TrackId::Register1);
    let reg1 = register_builder.add_binregister(32);
    let reg2 = register_builder.add_binregister(32);
    let scratch = cfg.add_scratch_track(TrackId::Scratch1);
    let mut cpu = Cpu::new(&cfg);

    cpu.set_binregister(reg1, 289742058u64, scratch);
    cpu.set_binregister(reg2, 791490498u64, scratch);
    cpu.sub_binregister_from_binregister(reg1, reg2, scratch);
    cpu.print_binregister_in_binary(reg2, scratch);

    test_lir_prog(&cpu.into_ops(), "", "0b00011101111010000001001011011000", &cfg);
}

#[test]
fn test_shift_binregisters() {
    let mut cfg = CpuConfig::new();
    let mut register_builder = cfg.build_register_track(TrackId::Register1);
    let reg1 = register_builder.add_binregister(32);
    let scratch = cfg.add_scratch_track(TrackId::Scratch1);
    let mut cpu = Cpu::new(&cfg);

    cpu.set_binregister(reg1, 0b01000110011010000010110110101100u64, scratch);
    cpu.shift_binregister_left(reg1, scratch);
    cpu.print_binregister_in_binary(reg1, scratch);

    test_lir_prog(&cpu.into_ops(), "", "0b10001100110100000101101101011000", &cfg);
}

#[test]
fn test_shift_binregisters_right() {
    let mut cfg = CpuConfig::new();
    let mut register_builder = cfg.build_register_track(TrackId::Register1);
    let reg1 = register_builder.add_binregister(32);
    let scratch = cfg.add_scratch_track(TrackId::Scratch1);
    let mut cpu = Cpu::new(&cfg);

    cpu.set_binregister(reg1, 0b01000110011010000010110110101101u64, scratch);
    cpu.shift_binregister_right(reg1, scratch);
    cpu.print_binregister_in_binary(reg1, scratch);

    test_lir_prog(&cpu.into_ops(), "", "0b00100011001101000001011011010110", &cfg);
}

#[test]
fn test_mul_binregisters() {
    let mut cfg = CpuConfig::new();
    let mut register_builder = cfg.build_register_track(TrackId::Register1);
    let reg1 = register_builder.add_binregister(32);
    let reg2 = register_builder.add_binregister(32);
    let reg3 = register_builder.add_binregister(32);
    let scratch = cfg.add_scratch_track(TrackId::Scratch1);
    let mut cpu = Cpu::new(&cfg);

    cpu.set_binregister(reg1, 103050u64, scratch);
    cpu.set_binregister(reg2, 1561594u64, scratch);
    cpu.mul_binregisters(reg1, reg2, reg3, scratch);
    cpu.print_binregister_in_binary(reg3, scratch);

    test_lir_prog(&cpu.into_ops(), "", "0b01110111101101101101100011000100", &cfg);
}

#[test]
fn test_div_binregisters() {
    let mut cfg = CpuConfig::new();
    let mut register_builder = cfg.build_register_track(TrackId::Register1);
    let a = register_builder.add_binregister(32);
    let b = register_builder.add_binregister(32);
    let div = register_builder.add_binregister(32);
    let rem = register_builder.add_binregister(32);
    let scratch = cfg.add_scratch_track(TrackId::Scratch1);
    let mut cpu = Cpu::new(&cfg);

    cpu.set_binregister(a, 1037250132u64, scratch);
    cpu.set_binregister(b, 156347u64, scratch);
    cpu.div_binregisters(a, b, div, rem, scratch);
    cpu.print_binregister_in_binary(div, scratch);
    cpu.print_newline(scratch);
    cpu.print_binregister_in_binary(rem, scratch);

    test_lir_prog(
        &cpu.into_ops(),
        "",
        "0b00000000000000000001100111101010\n0b00000000000000001010110001100110",
        &cfg,
    );
}

#[test]
fn test_div_binregisters_10() {
    let mut cfg = CpuConfig::new();
    let mut register_builder = cfg.build_register_track(TrackId::Register1);
    let a = register_builder.add_binregister(32);
    let b = register_builder.add_binregister(4);
    let div = register_builder.add_binregister(32);
    let rem = register_builder.add_binregister(32);
    let scratch = cfg.add_scratch_track(TrackId::Scratch1);
    let mut cpu = Cpu::new(&cfg);

    cpu.set_binregister(a, 1037250132u64, scratch);
    cpu.set_binregister(b, 10u64, scratch);
    cpu.div_binregisters(a, b, div, rem, scratch);
    cpu.print_binregister_in_binary(div, scratch);
    cpu.print_newline(scratch);
    cpu.print_binregister_in_binary(rem, scratch);

    test_lir_prog(
        &cpu.into_ops(),
        "",
        "0b00000110001011101011011111010101\n0b00000000000000000000000000000010",
        &cfg,
    );
}

#[test]
fn test_cmp_2_binregisters() {
    let mut cfg = CpuConfig::new();
    let mut register_builder = cfg.build_register_track(TrackId::Register1);
    let a = register_builder.add_binregister(32);
    let b = register_builder.add_binregister(32);
    let scratch = cfg.add_scratch_track(TrackId::Scratch1);
    let mut cpu = Cpu::new(&cfg);
    let (cmp_result, scratch) = scratch.split_1();
    cpu.add_const_to_byte(cmp_result, b'5');

    cpu.set_binregister(a, 136u64, scratch);
    cpu.set_binregister(b, 138u64, scratch);
    cpu.cmp_2_uint_binregisters(a, b, cmp_result, scratch);
    cpu.goto(cmp_result);
    cpu.out();
    cpu.inc_binregister(a, scratch);
    cpu.cmp_2_uint_binregisters(a, b, cmp_result, scratch);
    cpu.goto(cmp_result);
    cpu.out();
    cpu.inc_binregister(a, scratch);
    cpu.cmp_2_uint_binregisters(a, b, cmp_result, scratch);
    cpu.goto(cmp_result);
    cpu.out();
    cpu.inc_binregister(a, scratch);
    cpu.cmp_2_uint_binregisters(a, b, cmp_result, scratch);
    cpu.goto(cmp_result);
    cpu.out();
    cpu.inc_binregister(a, scratch);
    cpu.cmp_2_uint_binregisters(a, b, cmp_result, scratch);
    cpu.goto(cmp_result);
    cpu.out();
    cpu.clr();

    test_lir_prog(&cpu.into_ops(), "", "43345", &cfg);
}

#[test]
fn test_print_binregister_decimal() {
    let mut cfg = CpuConfig::new();
    let mut register_builder = cfg.build_register_track(TrackId::Register1);
    let a = register_builder.add_binregister(32);
    let scratch = cfg.add_scratch_track(TrackId::Scratch1);
    let mut cpu = Cpu::new(&cfg);

    cpu.set_binregister(a, 1037250132u64, scratch);
    let out_store_size = (a.size as f64 / std::f64::consts::LOG2_10).ceil() as isize + 1;
    cpu.print_binregister_in_decimal(a, out_store_size, scratch);

    test_lir_prog(&cpu.into_ops(), "", "1037250132", &cfg);
}
