use brainpluck::bf::{
    get_optimized_bf_ops, ops2str, parse_bf, BfFormatOptions, BfIo, BfOp, BfState, LoopCount, ParseBfProgError, TextPos,
};
use brainpluck::lir::Lir;
use brainpluck::lir2bf::lir2bf;

fn parse(s: &str) -> Vec<BfOp> {
    parse_bf(s).unwrap_or_else(|e| panic!("Error: {:?}", e))
}

#[test]
fn printing_a_parsed_program_gives_its_text_back() {
    let text = "set up +++[->+<] done.\nnext line, with a comma";
    let ops = parse(text);
    assert_eq!(ops2str(&ops, BfFormatOptions::clean_with_comments()), text.replace('\n', ""));
    assert_eq!(ops2str(&ops, BfFormatOptions::clean()), "+++[->+<].,");
}

#[test]
fn comments_are_dropped_from_clean_text() {
    let ops = parse("a+b");
    assert_eq!(ops2str(&ops, BfFormatOptions::clean()), "+");
    assert_eq!(ops2str(&ops, BfFormatOptions::clean_with_comments()), "a+b");
    assert_eq!(ops2str(&ops, BfFormatOptions::with_opts()), "Comment(a)+Comment(b)");
}

#[test]
fn optimized_operations_by_name() {
    let ops = get_optimized_bf_ops(&parse("[-]>>>+[->+<]+++<<[->+>++<<]"));
    assert_eq!(ops2str(&ops, BfFormatOptions::with_opts()), "ClrShift(3)+MoveAdd(1)Add(3)Shift(-2)[->+>Add(2)Shift(-2)]");
    assert_eq!(ops2str(&ops, BfFormatOptions::clean()), "[-]>>>+[->+<]+++<<[->+>++<<]");
}

#[test]
fn two_target_moves_by_name_and_as_text() {
    let ops = get_optimized_bf_ops(&parse("[->+>+<<]"));
    assert_eq!(ops2str(&ops, BfFormatOptions::with_opts()), "MoveAdd2(1, 2)");
    assert_eq!(ops2str(&ops, BfFormatOptions::clean()), "[->+>+<<]");
}

#[test]
fn negative_additions_as_text() {
    let ops = get_optimized_bf_ops(&parse("---"));
    assert_eq!(ops2str(&ops, BfFormatOptions::with_opts()), "Add(253)");
    assert_eq!(ops2str(&ops, BfFormatOptions::clean()), "---");
}

#[test]
fn loop_counts_are_grouped_by_thousands() {
    let mut lc = LoopCount::new();
    let mut child = LoopCount::new();
    child.tot_instrs_executed = 1234567;
    lc.children_counts.push(child);
    let ops = parse("+[-]");
    assert_eq!(ops2str(&ops, BfFormatOptions::perf_clean(&lc)), "[1,234,567\n \n]");
    assert_eq!(ops2str(&ops, BfFormatOptions::perf_verbose(&lc)), "+[1,234,567\n -\n]");
    let ops2 = parse("[][]");
    assert_eq!(ops2str(&ops2, BfFormatOptions::perf_clean(&lc)), "[1,234,567\n \n][0\n \n]");
}

#[test]
fn loop_count_getters() {
    let mut lc = LoopCount::new();
    assert_eq!(lc.get_instrs_executed(), 0);
    assert_eq!(lc.get_self_instrs_executed(), 0);
    lc.self_instrs_executed = 5;
    lc.tot_instrs_executed = 8;
    assert_eq!(lc.get_self_instrs_executed(), 5);
    assert_eq!(lc.get_instrs_executed(), 8);
}

#[test]
fn debugging_marks() {
    let ops = vec![
        BfOp::DebugMessage("d".to_string()),
        BfOp::Crash("c".to_string()),
        BfOp::Breakpoint,
        BfOp::PrintRegisters,
        BfOp::CheckScratchIsEmptyFromHere("s".to_string()),
    ];
    assert_eq!(ops2str(&ops, BfFormatOptions::clean_with_comments()), "#!$&");
    assert_eq!(ops2str(&ops, BfFormatOptions::clean()), "");
    assert_eq!(
        ops2str(&ops, BfFormatOptions::with_opts()),
        "DebugMessage(d)Crash(c)BreakpointPrintRegistersCheckScratchIsEmptyFromHere(s)"
    );
}

#[test]
fn format_option_constructors() {
    let o = BfFormatOptions::clean();
    assert!(o.clean_output && !o.print_optimizations && !o.indented && !o.only_loops_and_comments && o.loop_count.is_none());
    let o = BfFormatOptions::with_opts();
    assert!(!o.clean_output && o.print_optimizations && !o.indented);
    let lc = LoopCount::new();
    let o = BfFormatOptions::perf_clean(&lc);
    assert!(o.indented && o.only_loops_and_comments && !o.print_optimizations && o.loop_count.is_some());
    let o = BfFormatOptions::perf_verbose(&lc);
    assert!(o.indented && !o.only_loops_and_comments && o.print_optimizations);
}

#[test]
fn unbalanced_brackets_are_located() {
    match parse_bf("+\n[[]") {
        Err(ParseBfProgError::UnbalancedOpenBracket(e)) => assert_eq!(e.pos, TextPos { line_num: 2, col: 1 }),
        _ => panic!("expected an unbalanced open bracket"),
    }
    match parse_bf("+\n+]") {
        Err(ParseBfProgError::UnbalancedCloseBracket(e)) => assert_eq!(e.pos, TextPos { line_num: 2, col: 2 }),
        _ => panic!("expected an unbalanced close bracket"),
    }
    match parse_bf("]]") {
        Err(ParseBfProgError::UnbalancedCloseBracket(e)) => assert_eq!(e.pos, TextPos { line_num: 1, col: 1 }),
        _ => panic!("expected an unbalanced close bracket"),
    }
}

#[test]
fn windows_line_breaks_are_one_break() {
    match parse_bf("+\r\n]") {
        Err(ParseBfProgError::UnbalancedCloseBracket(e)) => assert_eq!(e.pos, TextPos { line_num: 2, col: 1 }),
        _ => panic!("expected an unbalanced close bracket"),
    }
}

#[test]
fn low_level_code_becomes_the_same_brainfuck() {
    let lir = vec![
        Lir::Right,
        Lir::Inc,
        Lir::Loop(vec![Lir::Dec, Lir::Left, Lir::Inc, Lir::Right]),
        Lir::Comment("x".to_string()),
        Lir::Out,
        Lir::In,
    ];
    let ops = lir2bf(&lir);
    assert_eq!(ops2str(&ops, BfFormatOptions::clean_with_comments()), ">+[-<+>]x.,");
}

#[test]
fn interpreter_reports_moving_left_of_the_tape() {
    let ops = parse("<");
    let mut st = BfState::new();
    let mut io = BfIo::new(vec![]);
    assert!(st.run_ops(&ops, &mut io, None, None).is_err());
}

#[test]
fn interpreter_reads_input_and_end_of_input_as_zero() {
    let ops = parse(",.,.,.");
    let mut st = BfState::new();
    let mut io = BfIo::new(b"a\rb".to_vec());
    assert!(st.run_ops(&ops, &mut io, None, None).is_ok());
    assert_eq!(io.output, vec![b'a', b'b', 0]);
}

#[test]
fn crash_and_debug_messages_are_recorded() {
    let ops = vec![BfOp::DebugMessage("hello".to_string()), BfOp::Crash("boom".to_string()), BfOp::Out];
    let mut st = BfState::new();
    let mut io = BfIo::new(vec![]);
    assert!(st.run_ops(&ops, &mut io, None, None).is_err());
    assert_eq!(io.messages, vec!["hello".to_string(), "boom".to_string()]);
    assert!(io.output.is_empty());
}

#[test]
fn optimized_and_plain_programs_agree() {
    let text = "++++++++[>++++[>++>+++>+++>+<<<<-]>+>+>->>+[<]<-]>>.>---.+++++++..+++.>>.<-.<.+++.------.--------.>>+.>++.";
    let ops = parse(text);
    let mut a = BfState::new();
    let mut ia = BfIo::new(vec![]);
    assert!(a.run_ops(&ops, &mut ia, None, None).is_ok());
    let mut b = BfState::new();
    let mut ib = BfIo::new(vec![]);
    assert!(b.run_ops(&get_optimized_bf_ops(&ops), &mut ib, None, None).is_ok());
    assert_eq!(ia.output, ib.output);
    assert_eq!(a.cells[..b.cells.len().min(a.cells.len())], b.cells[..b.cells.len().min(a.cells.len())]);
}

#[test]
fn parsing_maps_operators_and_comment_runs() {
    let ops = parse("+[->+<]");
    assert_eq!(format!("{:?}", ops), "[Inc, Loop([Dec, Right, Inc, Left])]");
    let ops = parse("a+b\nc");
    assert_eq!(format!("{:?}", ops), "[Comment(\"a\"), Inc, Comment(\"b\"), Comment(\"c\")]");
    let ops = parse("x\r\ny");
    assert_eq!(format!("{:?}", ops), "[Comment(\"x\"), Comment(\"y\")]");
}
