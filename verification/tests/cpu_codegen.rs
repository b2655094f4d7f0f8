use brainpluck::bf::{get_optimized_bf_ops, BfIo, BfState};
use brainpluck::cpu::{Cpu, CpuConfig, Pos, TrackId};
use brainpluck::lir2bf::lir2bf;

fn run(cpu: Cpu, cfg: &CpuConfig) -> String {
    let prog = get_optimized_bf_ops(&lir2bf(&cpu.into_ops()));
    let mut state = BfState::new();
    let mut io = BfIo::new(vec![]);
    state.run_ops(&prog, &mut io, Some(cfg), None).unwrap_or_else(|e| panic!("Error: {:?}", e));
    assert!(state.check_scratch_is_empty(cfg));
    String::from_utf8_lossy(&io.output).to_string()
}

#[test]
fn prints_text() {
    let mut cfg = CpuConfig::new();
    let scratch = cfg.add_scratch_track(TrackId::Scratch1);
    let mut cpu = Cpu::new(&cfg);
    cpu.print_text("Hi there", scratch);
    cpu.print_newline(scratch);
    cpu.print_char('!', scratch.split_1().0);
    assert_eq!(run(cpu, &cfg), "Hi there\n!");
}

#[test]
fn negates_truth_values() {
    let mut cfg = CpuConfig::new();
    let data = cfg.add_data_track(TrackId::Heap);
    let scratch = cfg.add_scratch_track(TrackId::Scratch1);
    let mut cpu = Cpu::new(&cfg);
    cpu.set_byte(data.at(0), 5);
    cpu.not(data.at(0), scratch);
    cpu.moveprint_byte(data.at(0), scratch);
    cpu.not(data.at(0), scratch);
    cpu.moveprint_byte(data.at(0), scratch);
    assert_eq!(run(cpu, &cfg), "01");
}

#[test]
fn clamped_subtraction() {
    let mut cfg = CpuConfig::new();
    let data = cfg.add_data_track(TrackId::Heap);
    let scratch = cfg.add_scratch_track(TrackId::Scratch1);
    let mut cpu = Cpu::new(&cfg);
    cpu.set_byte(data.at(0), 5);
    cpu.set_byte(data.at(1), 3);
    cpu.movesub_byte_clamped(data.at(0), data.at(1), scratch);
    cpu.moveprint_byte(data.at(1), scratch);
    cpu.set_byte(data.at(0), 2);
    cpu.set_byte(data.at(1), 7);
    cpu.movesub_byte_clamped(data.at(0), data.at(1), scratch);
    cpu.moveprint_byte(data.at(1), scratch);
    cpu.moveprint_byte(data.at(0), scratch);
    assert_eq!(run(cpu, &cfg), "050");
}

#[test]
fn prints_hex_digits() {
    let mut cfg = CpuConfig::new();
    let data = cfg.add_data_track(TrackId::Heap);
    let scratch = cfg.add_scratch_track(TrackId::Scratch1);
    let mut cpu = Cpu::new(&cfg);
    cpu.set_byte(data.at(0), 11);
    cpu.moveprint_hex_digit(data.at(0), scratch);
    cpu.set_byte(data.at(0), 7);
    cpu.moveprint_hex_digit(data.at(0), scratch);
    cpu.set_byte(data.at(0), 9);
    cpu.moveprint_digit_if_nonzero(data.at(0));
    cpu.moveprint_digit_if_nonzero(data.at(0));
    cpu.set_byte(data.at(0), 4);
    cpu.moveprint_digit(data.at(0));
    assert_eq!(run(cpu, &cfg), "B794");
}

fn print_register_bytes(cpu: &mut Cpu, reg: brainpluck::cpu::Register, scratch: brainpluck::cpu::ScratchTrack) {
    for i in 0..reg.size {
        if i > 0 {
            cpu.print_text(", ", scratch);
        }
        cpu.moveprint_byte(reg.at(i), scratch);
    }
}

#[test]
fn increments_and_decrements_registers_with_carries() {
    let mut cfg = CpuConfig::new();
    let reg = cfg.add_register_track(TrackId::Register1, 2);
    let scratch = cfg.add_scratch_track(TrackId::Scratch1);
    let mut cpu = Cpu::new(&cfg);
    cpu.set_register(reg, 255);
    cpu.inc_register(reg, scratch);
    print_register_bytes(&mut cpu, reg, scratch);
    cpu.print_text("; ", scratch);
    cpu.set_register(reg, 256);
    cpu.dec_register(reg, scratch);
    print_register_bytes(&mut cpu, reg, scratch);
    assert_eq!(run(cpu, &cfg), "1, 0; 0, 255");
}

#[test]
fn clears_long_registers() {
    let mut cfg = CpuConfig::new();
    let reg = cfg.add_register_track(TrackId::Register1, 10);
    let scratch = cfg.add_scratch_track(TrackId::Scratch1);
    let mut cpu = Cpu::new(&cfg);
    cpu.set_register(reg, 0x0102_0304_05);
    cpu.set_byte(reg.at(0), 9);
    cpu.clr_register(reg, scratch);
    print_register_bytes(&mut cpu, reg, scratch);
    assert_eq!(run(cpu, &cfg), "0, 0, 0, 0, 0, 0, 0, 0, 0, 0");
}

#[test]
fn copies_and_adds_registers() {
    let mut cfg = CpuConfig::new();
    let mut builder = cfg.build_register_track(TrackId::Register1);
    let a = builder.add_register(2);
    let b = builder.add_register(2);
    let scratch = cfg.add_scratch_track(TrackId::Scratch1);
    let mut cpu = Cpu::new(&cfg);
    cpu.set_register(a, 300);
    cpu.set_register(b, 500);
    cpu.add_register_to_register(a, b, scratch);
    cpu.copy_register(b, a, scratch, true);
    cpu.moveprint_register_hex(a, scratch);
    cpu.moveprint_register_hex(b, scratch);
    assert_eq!(run(cpu, &cfg), "0x03200x0320");
}

#[test]
fn adds_a_constant_with_carry() {
    let mut cfg = CpuConfig::new();
    let data = cfg.add_data_track(TrackId::Heap);
    let scratch = cfg.add_scratch_track(TrackId::Scratch1);
    let mut cpu = Cpu::new(&cfg);
    cpu.set_byte(data.at(0), 250);
    cpu.add_const_to_byte_with_carry(data.at(0), 10, data.at(1), scratch);
    cpu.moveprint_byte(data.at(0), scratch);
    cpu.print_text(" ", scratch);
    cpu.moveprint_byte(data.at(1), scratch);
    assert_eq!(run(cpu, &cfg), "4 1");
}

#[test]
fn unpacks_and_packs_registers() {
    let mut cfg = CpuConfig::new();
    let mut builder = cfg.build_register_track(TrackId::Register1);
    let reg = builder.add_register(4);
    let bits = builder.add_binregister(32);
    let back = builder.add_register(4);
    let scratch = cfg.add_scratch_track(TrackId::Scratch1);
    let mut cpu = Cpu::new(&cfg);
    cpu.add_const_to_register(reg, 0x00FF_D555, scratch);
    cpu.unpack_register(reg, bits, scratch, false);
    cpu.pack_binregister(bits, back, scratch, true);
    cpu.moveprint_register_hex(back, scratch);
    cpu.moveprint_register_hex(reg, scratch);
    cpu.clr_binregister(bits, scratch);
    assert_eq!(run(cpu, &cfg), "0x00FFD5550x00FFD555");
}

#[test]
fn steps_registers_of_bits() {
    let mut cfg = CpuConfig::new();
    let mut builder = cfg.build_register_track(TrackId::Register1);
    let _pad = builder.add_register(1);
    let bits = builder.add_binregister(8);
    let out = builder.add_register(1);
    let scratch = cfg.add_scratch_track(TrackId::Scratch1);
    let mut cpu = Cpu::new(&cfg);
    let byte = Pos { frame: out.offset, track: out.track.track_num };
    cpu.set_byte(byte, 5);
    cpu.move_unpack_byte_onto_zeros(byte, bits.at(0), scratch);
    cpu.inc_binregister(bits, scratch);
    cpu.pack_binregister8_onto_byte(bits, byte, scratch, true);
    cpu.moveprint_byte(byte, scratch);
    cpu.dec_binregister(bits, scratch);
    cpu.dec_binregister(bits, scratch);
    cpu.pack_binregister8_onto_byte(bits, byte, scratch, true);
    cpu.moveprint_byte(byte, scratch);
    cpu.clr_binregister(bits, scratch);
    assert_eq!(run(cpu, &cfg), "64");
}

#[test]
fn moves_slices_and_zeroes_them() {
    let mut cfg = CpuConfig::new();
    let mut builder = cfg.build_register_track(TrackId::Register1);
    let a = builder.add_register(2);
    let b = builder.add_register(2);
    let scratch = cfg.add_scratch_track(TrackId::Scratch1);
    let mut cpu = Cpu::new(&cfg);
    cpu.set_register(a, 0x0102);
    cpu.move_onto_zero_register(a, b);
    cpu.moveprint_register_hex(a, scratch);
    cpu.set_register(a, 0x0304);
    cpu.zero_register(a);
    cpu.moveprint_register_hex(a, scratch);
    cpu.moveprint_register_hex(b, scratch);
    assert_eq!(run(cpu, &cfg), "0x00000x00000x0102");
}

#[test]
fn copies_bytes_through_automatic_scratch_cells() {
    let mut cfg = CpuConfig::new();
    let data = cfg.add_data_track(TrackId::Heap);
    let scratch = cfg.add_scratch_track(TrackId::Scratch1);
    let mut cpu = Cpu::new(&cfg);
    cpu.set_byte(data.at(0), 42);
    cpu.copy_byte_autoscratch(data.at(0), data.at(3), scratch);
    cpu.set_byte(data.at(1), 2);
    cpu.sub_byte_autoscratch(data.at(1), data.at(3), scratch);
    cpu.moveprint_byte(data.at(0), scratch);
    cpu.print_text(" ", scratch);
    cpu.moveprint_byte(data.at(1), scratch);
    cpu.print_text(" ", scratch);
    cpu.moveprint_byte(data.at(3), scratch);
    assert_eq!(run(cpu, &cfg), "42 2 40");
}

#[test]
fn chooses_scratch_cells_between_positions() {
    let mut cfg = CpuConfig::new();
    let data = cfg.add_data_track(TrackId::Heap);
    let scratch = cfg.add_scratch_track(TrackId::Scratch1);
    let cpu = Cpu::new(&cfg);
    let p = cpu.get_pos_on_track_between(data.at(2), data.at(5), scratch.track);
    assert_eq!(p, Pos { frame: 2, track: 1 });
    let q = cpu.get_autoscratch(data.at(2), data.at(5), scratch);
    assert_eq!(q, Pos { frame: 2, track: 1 });
    let r = cpu.get_autoscratch(scratch.track.at(2), scratch.track.at(3), scratch);
    assert_eq!(r, Pos { frame: 4, track: 1 });
}
