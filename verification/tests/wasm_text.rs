use brainpluck::bf::{parse_bf, BfOp};
use brainpluck::bf2wasm::{bf2wasm, bf2wat, MODULE_HEAD, MODULE_RESUME, MODULE_TAIL};

fn body_of(text: &str) -> &str {
    let start = MODULE_HEAD.len() + MODULE_RESUME.len();
    &text[start..text.len() - MODULE_TAIL.len()]
}

#[test]
fn wat_of_increment() {
    let ops = parse_bf("+").unwrap();
    let text = bf2wat(&ops, false);
    assert!(text.starts_with(MODULE_HEAD));
    assert!(text.ends_with(MODULE_TAIL));
    assert_eq!(
        body_of(&text),
        "(block $async_block_0\n(br_if $async_block_0 (i32.gt_u (local.get $async_start_block) (i32.const 1)))\n\
(i32.store8 offset=0 (local.get $cell_ptr) (i32.add (i32.load8_u offset=0 (local.get $cell_ptr)) (i32.const 1)))\n)\n"
    );
}

#[test]
fn wat_of_negative_offset_moves_pointer_first() {
    let ops = vec![BfOp::Left, BfOp::Dec];
    let text = bf2wat(&ops, false);
    assert_eq!(
        body_of(&text),
        "(block $async_block_0\n(br_if $async_block_0 (i32.gt_u (local.get $async_start_block) (i32.const 1)))\n\
(local.set $cell_ptr (i32.add (local.get $cell_ptr) (i32.const -1)))\
(i32.store8 offset=0 (local.get $cell_ptr) (i32.add (i32.load8_u offset=0 (local.get $cell_ptr)) (i32.const -1)))\n)\n"
    );
}

#[test]
fn wat_of_pending_offset_is_applied_at_the_end() {
    let ops = vec![BfOp::Right, BfOp::Right, BfOp::Inc];
    let text = bf2wat(&ops, false);
    assert_eq!(
        body_of(&text),
        "(block $async_block_0\n(br_if $async_block_0 (i32.gt_u (local.get $async_start_block) (i32.const 1)))\n\
(i32.store8 offset=2 (local.get $cell_ptr) (i32.add (i32.load8_u offset=2 (local.get $cell_ptr)) (i32.const 1)))\n\
(local.set $cell_ptr (i32.add (local.get $cell_ptr) (i32.const 2))))\n"
    );
}

#[test]
fn wat_of_input_and_loop() {
    let ops = parse_bf(",[.]").unwrap();
    let text = bf2wat(&ops, false);
    let body = body_of(&text);
    assert!(body.starts_with("(block $async_block_0\n(br_if $async_block_0 (i32.gt_u (local.get $async_start_block) (i32.const 1)))\n(block $async_block_0_inner\n"));
    assert!(body.contains("(global.set $async_start_block_global (i32.const 1))\n"));
    assert!(body.contains("(block $async_block_1\n(br_if $async_block_1 (i32.gt_u (local.get $async_start_block) (i32.const 2)))\n(loop $bf_loop_2\n"));
    assert!(body.contains("(call $write_output_byte (i32.load8_u (local.get $cell_ptr)))\n"));
    assert!(body.ends_with("(br $bf_loop_2)\n)\n)\n)\n"));
}

#[test]
fn wat_of_loop_with_input_is_split() {
    let ops = parse_bf("+[,.]").unwrap();
    let text = bf2wat(&ops, false);
    let body = body_of(&text);
    // the sync block, then the loop with its input piece (2) and output piece (3), the loop itself (4)
    assert!(body.contains("(i32.const 1)))\n(i32.store8 offset=0"));
    assert!(body.contains("(loop $async_bf_loop_2\n(block $async_bf_loop_block_2\n"));
    assert!(body.contains("(global.set $async_start_block_global (i32.const 2))\n"));
    assert!(body.contains("(i32.gt_u (local.get $async_start_block) (i32.const 3)))\n"));
    assert!(body.contains("(i32.gt_u (local.get $async_start_block) (i32.const 4)))\n"));
}

#[test]
fn wat_of_optimized_move() {
    let ops = parse_bf("[->+<]").unwrap();
    let text = bf2wat(&ops, true);
    assert!(body_of(&text).contains(
        "(i32.store8 offset=1 (local.get $cell_ptr) (i32.add (i32.load8_u offset=1 (local.get $cell_ptr)) (i32.load8_u offset=0 (local.get $cell_ptr))))\n\
(i32.store8 offset=0 (local.get $cell_ptr) (i32.const 0))\n"
    ));
}

#[test]
fn wasm_module_is_encoded() {
    let ops = parse_bf("++[>,.<-]").unwrap();
    let wasm = bf2wasm(ops, true).unwrap_or_else(|_| panic!("the text was refused"));
    assert_eq!(&wasm[0..4], b"\0asm");
    let plain = bf2wasm(parse_bf("++[>,.<-]").unwrap(), false).unwrap_or_else(|_| panic!("the text was refused"));
    assert_eq!(&plain[0..4], b"\0asm");
}

#[test]
fn wasm_of_hello_world() {
    let ops = parse_bf("++++++++[>++++[>++>+++>+++>+<<<<-]>+>+>->>+[<]<-]>>.>---.+++++++..+++.>>.<-.<.+++.------.--------.>>+.>++.").unwrap();
    let wasm = bf2wasm(ops, true).unwrap_or_else(|_| panic!("the text was refused"));
    assert!(wasm.len() > 8);
}
