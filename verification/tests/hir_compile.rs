use brainpluck::bf::{get_optimized_bf_ops, BfIo, BfState};
use brainpluck::hir::parse_hir;
use brainpluck::hir2sam::{hir2sam, Hir2SamError};
use brainpluck::linker::link_sam_fns;
use brainpluck::lir2bf::lir2bf;
use brainpluck::sam::SamState;
use brainpluck::sam2lir::sam2lir;

fn compile_and_run(text: &str) -> (String, String) {
    let program = parse_hir(text).unwrap();
    let fns = hir2sam(&program).unwrap();
    let linked = link_sam_fns(fns);
    let mut state = SamState::new(link_sam_fns(hir2sam(&program).unwrap()));
    let mut io = BfIo::new(Vec::new());
    state.run(&mut io).unwrap_or_else(|e| panic!("Error: {:?}", e));
    let direct = String::from_utf8_lossy(&io.output).to_string();
    let (lir, cfg) = sam2lir(linked);
    let prog = get_optimized_bf_ops(&lir2bf(&lir));
    let mut bf = BfState::new();
    let mut io = BfIo::new(Vec::new());
    bf.run_ops(&prog, &mut io, Some(&cfg), None).unwrap_or_else(|e| panic!("Error: {:?}", e));
    (direct, String::from_utf8_lossy(&io.output).to_string())
}

#[test]
fn compiled_program_prints_on_both_machines() {
    let text = "fn main() {\n  let x : u32 = 5;\n  show(x * 3 + 1);\n  let c : u8 = 65;\n  print_char(c);\n}\n\nfn show(v: u32) {\n  println(v);\n}\n";
    let (direct, on_tape) = compile_and_run(text);
    assert_eq!(direct, "16\nA");
    assert_eq!(on_tape, "16\nA");
}

#[test]
fn assignments_and_byte_arithmetic() {
    let text = "fn main() { let a : u8 = 200; let b : u8 = 100; a = a + b; print(a); b = a - 50; println(b); }";
    let (direct, on_tape) = compile_and_run(text);
    assert_eq!(direct, "44250\n");
    assert_eq!(on_tape, direct);
}

#[test]
fn rejected_programs() {
    let reject = |t: &str| hir2sam(&parse_hir(t).unwrap()).err();
    assert_eq!(reject("fn main() { x = 1; }"), Some(Hir2SamError::Rejected));
    assert_eq!(reject("fn main() { let x : u8 = 1 / 2; }"), Some(Hir2SamError::Rejected));
    assert_eq!(reject("fn main() { let x : u8 = 256; }"), Some(Hir2SamError::Rejected));
    assert_eq!(reject("fn main() { nothing(); }"), Some(Hir2SamError::Rejected));
    assert_eq!(reject("fn main() { let x : u8 = 1; let y : u32 = x; }"), Some(Hir2SamError::Rejected));
    assert_eq!(reject("fn main() { f(1, 2); } fn f(a: u8) {}"), Some(Hir2SamError::Rejected));
    assert_eq!(reject("fn main() { print_char(7); }"), Some(Hir2SamError::Rejected));
    assert!(hir2sam(&parse_hir("fn main() { f(1); } fn f(a: u8) { print(a); }").unwrap()).is_ok());
}
