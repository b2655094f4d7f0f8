use brainpluck::bf::{get_optimized_bf_ops, BfIo, BfState};
use brainpluck::cpu::{Cpu, CpuConfig, Pos, ScratchTrack, TrackId};
use brainpluck::lir2bf::lir2bf;

fn run(cpu: Cpu, cfg: &CpuConfig) -> String {
    let prog = get_optimized_bf_ops(&lir2bf(&cpu.into_ops()));
    let mut state = BfState::new();
    let mut io = BfIo::new(vec![]);
    state.run_ops(&prog, &mut io, Some(cfg), None).unwrap_or_else(|e| panic!("Error: {:?}", e));
    assert!(state.check_scratch_is_empty(cfg));
    String::from_utf8_lossy(&io.output).to_string()
}

fn print_cmp(cpu: &mut Cpu, cmp: Pos, scratch: ScratchTrack) {
    cpu.move_match_cmp_result(
        cmp,
        scratch,
        |cpu, s| cpu.print_text("<", s),
        |cpu, s| cpu.print_text("=", s),
        |cpu, s| cpu.print_text(">", s),
    );
}

#[test]
fn branches_on_a_cell() {
    let mut cfg = CpuConfig::new();
    let data = cfg.add_data_track(TrackId::Heap);
    let scratch = cfg.add_scratch_track(TrackId::Scratch1);
    let mut cpu = Cpu::new(&cfg);
    cpu.set_byte(data.at(0), 3);
    cpu.if_nonzero_else(data.at(0), scratch, |cpu, s| cpu.print_text("y", s), |cpu, s| cpu.print_text("n", s));
    cpu.if_nonzero(data.at(0), scratch, |cpu, s| cpu.print_text("a", s));
    cpu.if_zero(data.at(0), scratch, |cpu, s| cpu.print_text("b", s));
    cpu.moveprint_byte(data.at(0), scratch);
    cpu.if_nonzero_else(data.at(0), scratch, |cpu, s| cpu.print_text("y", s), |cpu, s| cpu.print_text("n", s));
    cpu.if_nonzero(data.at(0), scratch, |cpu, s| cpu.print_text("a", s));
    cpu.if_zero(data.at(0), scratch, |cpu, s| cpu.print_text("z", s));
    assert_eq!(run(cpu, &cfg), "ya3nz");
}

#[test]
fn loops_while_a_cell_is_nonzero() {
    let mut cfg = CpuConfig::new();
    let data = cfg.add_data_track(TrackId::Heap);
    let scratch = cfg.add_scratch_track(TrackId::Scratch1);
    let mut cpu = Cpu::new(&cfg);
    cpu.set_byte(data.at(0), 3);
    cpu.loop_while(data.at(0), |cpu| {
        cpu.dec();
        cpu.print_text("x", scratch);
    });
    cpu.print_text("!", scratch);
    assert_eq!(run(cpu, &cfg), "xxx!");
}

#[test]
fn divides_exactly_and_with_remainder() {
    let mut cfg = CpuConfig::new();
    let data = cfg.add_data_track(TrackId::Heap);
    let scratch = cfg.add_scratch_track(TrackId::Scratch1);
    let mut cpu = Cpu::new(&cfg);
    cpu.set_byte(data.at(0), 6);
    cpu.set_byte(data.at(1), 3);
    cpu.div_u8s(data.at(0), data.at(1), data.at(2), data.at(3), scratch);
    cpu.moveprint_byte(data.at(2), scratch);
    cpu.print_text(",", scratch);
    cpu.moveprint_byte(data.at(3), scratch);
    cpu.print_text(";", scratch);
    cpu.set_byte(data.at(0), 7);
    cpu.div_u8_by_const(data.at(0), 3, data.at(2), data.at(3), scratch);
    cpu.moveprint_byte(data.at(2), scratch);
    cpu.print_text(",", scratch);
    cpu.moveprint_byte(data.at(3), scratch);
    cpu.clr_at(data.at(0));
    cpu.clr_at(data.at(1));
    assert_eq!(run(cpu, &cfg), "2,0;2,1");
}

#[test]
fn divides_bytes_by_counting_down() {
    let mut cfg = CpuConfig::new();
    let data = cfg.add_data_track(TrackId::Heap);
    let scratch = cfg.add_scratch_track(TrackId::Scratch1);
    let mut cpu = Cpu::new(&cfg);
    cpu.set_byte(data.at(0), 20);
    cpu.set_byte(data.at(1), 6);
    cpu.div_u8s(data.at(0), data.at(1), data.at(2), data.at(3), scratch);
    cpu.moveprint_byte(data.at(2), scratch);
    cpu.print_text(",", scratch);
    cpu.moveprint_byte(data.at(3), scratch);
    cpu.print_text(";", scratch);
    cpu.set_byte(data.at(0), 100);
    cpu.div_u8_by_const(data.at(0), 7, data.at(2), data.at(3), scratch);
    cpu.moveprint_byte(data.at(2), scratch);
    cpu.print_text(",", scratch);
    cpu.moveprint_byte(data.at(3), scratch);
    cpu.print_text(";", scratch);
    cpu.set_byte(data.at(0), 10);
    cpu.set_byte(data.at(1), 5);
    cpu.div_u8s(data.at(0), data.at(1), data.at(2), data.at(3), scratch);
    cpu.moveprint_byte(data.at(2), scratch);
    cpu.print_text(",", scratch);
    cpu.moveprint_byte(data.at(3), scratch);
    cpu.clr_at(data.at(0));
    cpu.clr_at(data.at(1));
    assert_eq!(run(cpu, &cfg), "3,2;14,2;2,0");
}

#[test]
fn compares_bytes() {
    let mut cfg = CpuConfig::new();
    let data = cfg.add_data_track(TrackId::Heap);
    let scratch = cfg.add_scratch_track(TrackId::Scratch1);
    let mut cpu = Cpu::new(&cfg);
    let (cmp, scratch) = scratch.split_1();
    cpu.set_byte(data.at(1), 5);
    for a in [3u8, 5, 7] {
        cpu.set_byte(data.at(0), a);
        cpu.cmp_2_u8s(data.at(0), data.at(1), cmp, scratch);
        print_cmp(&mut cpu, cmp, scratch);
    }
    assert_eq!(run(cpu, &cfg), "<=>");
}

#[test]
fn compares_registers_of_bytes() {
    let mut cfg = CpuConfig::new();
    let mut builder = cfg.build_register_track(TrackId::Register1);
    let a = builder.add_register(2);
    let b = builder.add_register(2);
    let scratch = cfg.add_scratch_track(TrackId::Scratch1);
    let mut cpu = Cpu::new(&cfg);
    let (cmp, scratch) = scratch.split_1();
    cpu.set_register(b, 0x0103);
    for v in [0x0102u64, 0x0103, 0x0201] {
        cpu.clr_register(a, scratch);
        cpu.set_register(a, v);
        cpu.cmp_2_uint_registers(a, b, cmp, scratch);
        print_cmp(&mut cpu, cmp, scratch);
    }
    cpu.clr_register(a, scratch);
    cpu.clr_register(b, scratch);
    assert_eq!(run(cpu, &cfg), "<=>");
}

#[test]
fn compares_signed_binary_registers() {
    let mut cfg = CpuConfig::new();
    let mut builder = cfg.build_register_track(TrackId::Register1);
    let a = builder.add_binregister(8);
    let b = builder.add_binregister(8);
    let scratch = cfg.add_scratch_track(TrackId::Scratch1);
    let mut cpu = Cpu::new(&cfg);
    let (cmp, scratch) = scratch.split_1();
    // sign and magnitude: the first cell is the sign
    for (x, y) in [(0b1000_0010u64, 0b1000_0001u64), (0b0000_0001, 0b1000_0001), (0b1000_0011, 0b1000_0011),
        (0b1000_0001, 0b0000_0001), (0b0000_0100, 0b0000_0101)] {
        cpu.set_binregister(a, x, scratch);
        cpu.set_binregister(b, y, scratch);
        cpu.cmp_2_int_binregisters(a, b, cmp, scratch);
        print_cmp(&mut cpu, cmp, scratch);
    }
    cpu.clr_binregister(a, scratch);
    cpu.clr_binregister(b, scratch);
    assert_eq!(run(cpu, &cfg), "<>=<<");
}

#[test]
fn branches_on_a_register() {
    let mut cfg = CpuConfig::new();
    let register = cfg.add_register_track(TrackId::Register1, 3);
    let scratch = cfg.add_scratch_track(TrackId::Scratch1);
    let mut cpu = Cpu::new(&cfg);
    cpu.if_register_nonzero_else(register, scratch, |cpu, s| cpu.print_text("n", s), |cpu, s| cpu.print_text("z", s));
    cpu.set_byte(register.at(1), 4);
    cpu.if_register_nonzero_else(register, scratch, |cpu, s| cpu.print_text("n", s), |cpu, s| cpu.print_text("z", s));
    cpu.clr_at(register.at(1));
    assert_eq!(run(cpu, &cfg), "zn");
}

#[test]
fn shifts_registers_of_bytes() {
    let mut cfg = CpuConfig::new();
    let register = cfg.add_register_track(TrackId::Register1, 3);
    let scratch = cfg.add_scratch_track(TrackId::Scratch1);
    let mut cpu = Cpu::new(&cfg);
    cpu.set_register(register, 0x010203);
    cpu.shift_register_left(register, scratch);
    for i in 0..3 {
        cpu.moveprint_byte(register.at(i), scratch);
    }
    cpu.print_text(";", scratch);
    cpu.set_register(register, 0x010203);
    cpu.shift_register_right(register, scratch);
    for i in 0..3 {
        cpu.moveprint_byte(register.at(i), scratch);
    }
    assert_eq!(run(cpu, &cfg), "230;012");
}

#[test]
fn increments_and_copies_binary_registers() {
    let mut cfg = CpuConfig::new();
    let mut builder = cfg.build_register_track(TrackId::Register1);
    let a = builder.add_binregister(4);
    let b = builder.add_binregister(4);
    let data = cfg.add_data_track(TrackId::Heap);
    let scratch = cfg.add_scratch_track(TrackId::Scratch1);
    let mut cpu = Cpu::new(&cfg);
    cpu.set_binregister(a, 0b0111, scratch);
    cpu.inc_binregister_unrolled(a, None, scratch);
    cpu.print_binregister_in_binary(a, scratch);
    cpu.set_binregister(a, 0b1111, scratch);
    cpu.inc_binregister_unrolled(a, Some(data.at(0)), scratch);
    cpu.print_binregister_in_binary(a, scratch);
    cpu.moveprint_byte(data.at(0), scratch);
    cpu.set_binregister(a, 0b0101, scratch);
    cpu.set_binregister(b, 0b0010, scratch);
    cpu.copy_binregister(a, b, scratch, false);
    cpu.print_binregister_in_binary(b, scratch);
    cpu.print_binregister_in_binary(a, scratch);
    cpu.clr_binregister(a, scratch);
    cpu.clr_binregister(b, scratch);
    assert_eq!(run(cpu, &cfg), "0b10000b000010b01110b0101");
}
