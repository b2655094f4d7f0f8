use brainpluck::hir::VarType;
use brainpluck::hir2sam::{
    literal_to_u32, literal_to_u8, type_size, LocalVar, Locals, SamBlockArena, SamCpu,
};

fn ops_text(arena: &SamBlockArena) -> Vec<String> {
    arena.blocks.iter().map(|b| format!("{:?} -> {:?}", b.ops, b.next_block_index)).collect()
}

#[test]
fn literals_give_their_values() {
    assert_eq!(literal_to_u32(&"4294967295".to_string()), 4294967295);
    assert_eq!(literal_to_u32(&"0007".to_string()), 7);
    assert_eq!(literal_to_u8(&"255".to_string()), 255);
    assert_eq!(type_size(VarType::U8), 1);
    assert_eq!(type_size(VarType::U32), 4);
}

#[test]
fn later_variables_hide_earlier_ones() {
    let mut locals = Locals { locals: Vec::new(), cur_stack_size: 0 };
    assert_eq!(locals.create(Some("x".to_string()), VarType::U32), (VarType::U32, 0));
    assert_eq!(locals.create(None, VarType::U8), (VarType::U8, 4));
    assert_eq!(locals.create(Some("x".to_string()), VarType::U8), (VarType::U8, 5));
    assert_eq!(locals.cur_stack_size, 6);
    assert_eq!(locals.locals.len(), 2);
    let x = locals.get(&"x".to_string());
    assert_eq!(x.location, 5);
    assert_eq!(x.typ, VarType::U8);
}

#[test]
fn instructions_go_to_the_variables() {
    let mut arena = SamBlockArena { blocks: Vec::new() };
    let decls = Vec::new();
    {
        let mut cpu = SamCpu {
            locals: Locals { locals: Vec::new(), cur_stack_size: 0 },
            out: arena.new_block_writer(),
            cur_b_offset: 8,
            fn_decls: &decls,
        };
        let a = LocalVar { name: "a".to_string(), typ: VarType::U32, location: 0 };
        let b = LocalVar { name: "b".to_string(), typ: VarType::U32, location: 4 };
        let c = LocalVar { name: "c".to_string(), typ: VarType::U8, location: 9 };
        cpu.set_a(&"123".to_string());
        cpu.write_a_at(&a);
        cpu.copy_local_to_local(&a, &b);
        cpu.copy_local_to_local(&b, &b);
        assert_eq!(cpu.split_to_new_block(), (0, 1));
        cpu.set_x(&"7".to_string());
        cpu.write_x_at(&c);
        cpu.goto_b_offset(9);
        assert_eq!(cpu.cur_b_offset, 9);
    }
    assert_eq!(
        ops_text(&arena),
        vec![
            "[Simple(SetA(123)), Simple(SubConstFromB(8)), Simple(WriteAAtB), Simple(ReadAAtB), \
             Simple(AddConstToB(4)), Simple(WriteAAtB)] -> Some(1)"
                .to_string(),
            "[Simple(SetX(7)), Simple(AddConstToB(5)), Simple(WriteXAtB)] -> None".to_string(),
        ]
    );
}
