use brainpluck::bf::{BfIo, BfState};
use brainpluck::cpu::{Cpu, CpuConfig, TrackId};
use brainpluck::lir2bf::lir2bf;

/// Runs the generated code (unoptimized) and returns the tape and pointer.
fn run(cpu: Cpu) -> (Vec<u8>, usize) {
    let prog = lir2bf(&cpu.into_ops());
    let mut state = BfState::new();
    let mut io = BfIo::new(vec![]);
    state.run_ops(&prog, &mut io, None, None).unwrap_or_else(|e| panic!("Error: {:?}", e));
    (state.cells, state.cell_ptr)
}

fn cell(cells: &Vec<u8>, i: usize) -> u8 {
    if i < cells.len() { cells[i] } else { 0 }
}

#[test]
fn goto_puts_the_pointer_on_the_cell_of_the_position() {
    let mut cfg = CpuConfig::new();
    let a = cfg.add_data_track(TrackId::Heap);
    let b = cfg.add_data_track(TrackId::Stack);
    let mut cpu = Cpu::new(&cfg);
    cpu.goto(b.at(4));
    // two tracks: frame 4 of track 1 is cell (4 + 3) * 2 + 1
    let (_, ptr) = run(cpu);
    assert_eq!(ptr, 15);
    let mut cpu = Cpu::new(&cfg);
    cpu.goto(a.at(-2));
    let (_, ptr) = run(cpu);
    assert_eq!(ptr, 2);
}

#[test]
fn set_byte_and_steps_change_one_cell() {
    let mut cfg = CpuConfig::new();
    let d = cfg.add_data_track(TrackId::Heap);
    let mut cpu = Cpu::new(&cfg);
    cpu.set_byte(d.at(2), 200);
    cpu.add_const_to_byte(d.at(2), 100);
    cpu.inc_at(d.at(0));
    cpu.dec_at(d.at(1));
    let (cells, ptr) = run(cpu);
    assert_eq!(ptr, 4);
    assert_eq!(cell(&cells, 5), 44);
    assert_eq!(cell(&cells, 3), 1);
    assert_eq!(cell(&cells, 4), 255);
    assert_eq!(cell(&cells, 6), 0);
}

#[test]
fn moveadd_moves_a_cell_onto_another() {
    let mut cfg = CpuConfig::new();
    let d = cfg.add_data_track(TrackId::Heap);
    let mut cpu = Cpu::new(&cfg);
    cpu.set_byte(d.at(0), 7);
    cpu.set_byte(d.at(3), 250);
    cpu.moveadd_byte(d.at(0), d.at(3));
    cpu.clr_at(d.at(5));
    let (cells, ptr) = run(cpu);
    assert_eq!(ptr, 8);
    assert_eq!(cell(&cells, 3), 0);
    assert_eq!(cell(&cells, 6), 1);
}

#[test]
fn copy_byte_keeps_the_source_and_clears_the_scratch_cell() {
    let mut cfg = CpuConfig::new();
    let d = cfg.add_data_track(TrackId::Heap);
    let mut cpu = Cpu::new(&cfg);
    cpu.set_byte(d.at(0), 9);
    cpu.set_byte(d.at(1), 1);
    cpu.copy_byte(d.at(0), d.at(1), d.at(2));
    let (cells, ptr) = run(cpu);
    assert_eq!(ptr, 5);
    assert_eq!(cell(&cells, 3), 9);
    assert_eq!(cell(&cells, 4), 10);
    assert_eq!(cell(&cells, 5), 0);
}
