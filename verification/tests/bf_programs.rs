use brainpluck::bf::{get_optimized_bf_ops, parse_bf, BfIo, BfOp, BfState};
use brainpluck::cpu::CpuConfig;

fn test_parsed_bf_prog(prog: &Vec<BfOp>, i: &str, o: &str, cfg: Option<&CpuConfig>) {
    let prog = get_optimized_bf_ops(prog);
    let mut state = BfState::new();
    let mut io = BfIo::new(i.as_bytes().to_vec());
    state
        .run_ops(&prog, &mut io, cfg, None)
        .unwrap_or_else(|e| panic!("Error: {:?}", e));
    assert_eq!(io.output, o.as_bytes());
}

fn test_raw_bf_prog(prog: &str, i: &str, o: &str) {
    test_parsed_bf_prog(
        &parse_bf(prog).unwrap_or_else(|e| panic!("Error: {:?}", e)),
        i,
        o,
        None,
    );
}

#[test]
fn test_hello_world_1() {
    test_raw_bf_prog("++++++++[>++++[>++>+++>+++>+<<<<-]>+>+>->>+[<]<-]>>.>---.+++++++..+++.>>.<-.<.+++.------.--------.>>+.>++.", "", "Hello World!\n");
}

#[test]
fn test_hello_world_2() {
    test_raw_bf_prog(">++++++++[-<+++++++++>]<.>>+>-[+]++>++>+++[>[->+++<<+++>]<<]>-----.>->+++..+++.>-.<<+[>[+>+]>>]<--------------.>>.+++.------.--------.>+.>+.", "", "Hello World!\n");
}

#[test]
fn test_cell_size_check() {
    test_raw_bf_prog(
        "++++++++[>++++++++<-]>[<++++>-]+<[>-<[>++++<-]>[<++++++++>-]<
            [>++++++++<-]+>[>++++++++++[>+++++<-]>+.-.[-]<<[-]<->] <[>>++
            +++++[>+++++++<-]>.+++++.[-]<<<-]] >[>++++++++[>+++++++<-]>.[
            -]<<-]<+++++++++++[>+++>+++++++++>+++++++++>+<<<<-]>-.>-.++++
            +++.+++++++++++.<.>>.++.+++++++..<-.>>-[[-]<]",
        "",
        "8 bit cells",
    );
}
