use brainpluck::bf::{ops2str, parse_bf, BfFormatOptions, BfIo, BfState, LoopCount};

fn profile(text: &str) -> LoopCount {
    let ops = parse_bf(text).unwrap_or_else(|e| panic!("Error: {:?}", e));
    let mut lc = LoopCount::new();
    let mut state = BfState::new();
    let mut io = BfIo::new(vec![]);
    state.run_ops(&ops, &mut io, None, Some(&mut lc)).unwrap_or_else(|e| panic!("Error: {:?}", e));
    lc
}

#[test]
fn counts_instructions_per_loop() {
    let lc = profile("++[->+<]");
    assert_eq!(lc.get_self_instrs_executed(), 3);
    assert_eq!(lc.get_instrs_executed(), 11);
    assert_eq!(lc.children_counts.len(), 1);
    let child = &lc.children_counts[0];
    assert_eq!(child.get_self_instrs_executed(), 8);
    assert_eq!(child.get_instrs_executed(), 8);
    assert_eq!(child.num_times_loop_run, 2);
}

#[test]
fn nested_loops_add_to_the_totals_of_their_parents() {
    let lc = profile("+[>++[-]<-]");
    assert_eq!(lc.get_self_instrs_executed(), 2);
    assert_eq!(lc.get_instrs_executed(), 10);
    let outer = &lc.children_counts[0];
    assert_eq!(outer.get_self_instrs_executed(), 6);
    assert_eq!(outer.get_instrs_executed(), 8);
    assert_eq!(outer.num_times_loop_run, 1);
    let inner = &outer.children_counts[0];
    assert_eq!(inner.get_self_instrs_executed(), 2);
    assert_eq!(inner.num_times_loop_run, 2);
}

#[test]
fn a_second_run_adds_to_the_same_counts() {
    let ops = parse_bf("+[-]").unwrap();
    let mut lc = LoopCount::new();
    for _ in 0..2 {
        let mut state = BfState::new();
        let mut io = BfIo::new(vec![]);
        lc.next_loop = 0;
        state.run_ops(&ops, &mut io, None, Some(&mut lc)).unwrap();
    }
    assert_eq!(lc.get_instrs_executed(), 6);
    assert_eq!(lc.children_counts.len(), 1);
    assert_eq!(lc.children_counts[0].num_times_loop_run, 2);
}

#[test]
fn counts_are_written_after_loops() {
    let ops = parse_bf("++[->+<]").unwrap();
    let mut lc = LoopCount::new();
    let mut state = BfState::new();
    let mut io = BfIo::new(vec![]);
    state.run_ops(&ops, &mut io, None, Some(&mut lc)).unwrap();
    let text = ops2str(&ops, BfFormatOptions::perf_clean(&lc));
    assert!(text.contains('8'));
}
