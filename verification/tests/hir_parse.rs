use brainpluck::hir::{
    hir_stop_reason, parse_hir, BinOpKind, Expr, HirPanic, ParseHirError, Stmt, VarType,
};

fn literal(e: &Expr) -> String {
    match e {
        Expr::Literal(d) => d.clone(),
        other => panic!("not a literal: {:?}", other),
    }
}

fn var(e: &Expr) -> String {
    match e {
        Expr::VarRef(x) => x.clone(),
        other => panic!("not a variable: {:?}", other),
    }
}

#[test]
fn test_parse_two_functions() {
    let text = "fn main() {\n    println(fib(2));\n}\n\nfn fib(x: u8, y : u32) -> u8 {\n    let z : u8 = x - 1;\n    z = z * 2;\n}\n";
    assert_eq!(hir_stop_reason(text), None);
    let prog = parse_hir(text).unwrap();
    assert_eq!(prog.fns.len(), 2);

    let main = &prog.fns[0];
    assert_eq!(main.name, "main");
    assert!(main.args.is_empty());
    assert_eq!(main.ret, None);
    assert_eq!(main.stmts.len(), 1);
    match &main.stmts[0] {
        Stmt::FnCall(c) => {
            assert_eq!(c.fn_name, "println");
            assert_eq!(c.args.len(), 1);
            match &c.args[0] {
                Expr::FnCall(inner) => {
                    assert_eq!(inner.fn_name, "fib");
                    assert_eq!(inner.args.len(), 1);
                    assert_eq!(literal(&inner.args[0]), "2");
                }
                other => panic!("unexpected {:?}", other),
            }
        }
        other => panic!("unexpected {:?}", other),
    }

    let fib = &prog.fns[1];
    assert_eq!(fib.name, "fib");
    assert_eq!(fib.args.len(), 2);
    assert_eq!(fib.args[0].arg_name, "x");
    assert_eq!(fib.args[0].arg_type, VarType::U8);
    assert_eq!(fib.args[1].arg_name, "y");
    assert_eq!(fib.args[1].arg_type, VarType::U32);
    assert_eq!(fib.ret, Some(VarType::U8));
    assert_eq!(fib.stmts.len(), 2);
    match &fib.stmts[0] {
        Stmt::VarDecl(d) => {
            assert_eq!(d.var_name, "z");
            assert_eq!(d.typ, VarType::U8);
            match &d.init {
                Expr::BinOp(b) => {
                    assert_eq!(b.kind, BinOpKind::Minus);
                    assert_eq!(var(&b.args.0), "x");
                    assert_eq!(literal(&b.args.1), "1");
                }
                other => panic!("unexpected {:?}", other),
            }
        }
        other => panic!("unexpected {:?}", other),
    }
    match &fib.stmts[1] {
        Stmt::VarAssign(a) => {
            assert_eq!(a.var_name, "z");
            match &a.expr {
                Expr::BinOp(b) => {
                    assert_eq!(b.kind, BinOpKind::Mul);
                    assert_eq!(var(&b.args.0), "z");
                    assert_eq!(literal(&b.args.1), "2");
                }
                other => panic!("unexpected {:?}", other),
            }
        }
        other => panic!("unexpected {:?}", other),
    }
}

#[test]
fn test_parse_products_bind_tighter() {
    let prog = parse_hir("fn a() { x = 1 + 2 * 3; }").unwrap();
    match &prog.fns[0].stmts[0] {
        Stmt::VarAssign(a) => match &a.expr {
            Expr::BinOp(b) => {
                assert_eq!(b.kind, BinOpKind::Plus);
                assert_eq!(literal(&b.args.0), "1");
                match &b.args.1 {
                    Expr::BinOp(m) => {
                        assert_eq!(m.kind, BinOpKind::Mul);
                        assert_eq!(literal(&m.args.0), "2");
                        assert_eq!(literal(&m.args.1), "3");
                    }
                    other => panic!("unexpected {:?}", other),
                }
            }
            other => panic!("unexpected {:?}", other),
        },
        other => panic!("unexpected {:?}", other),
    }
}

#[test]
fn test_parse_literal_keeps_digits() {
    let prog = parse_hir("fn a() { x = 007; }").unwrap();
    match &prog.fns[0].stmts[0] {
        Stmt::VarAssign(a) => assert_eq!(literal(&a.expr), "007"),
        other => panic!("unexpected {:?}", other),
    }
}

#[test]
fn test_parse_no_function() {
    assert_eq!(parse_hir("let x : u8 = 1;").unwrap_err(), ParseHirError::NoFunction);
    assert_eq!(parse_hir("").unwrap_err(), ParseHirError::NoFunction);
}

#[test]
fn test_parse_trailing_input() {
    assert_eq!(parse_hir("fn a() {} junk").unwrap_err(), ParseHirError::TrailingInput(10));
    assert!(parse_hir("fn a() {}  \n\t").is_ok());
}

#[test]
fn test_parse_one_operator_per_level() {
    // An expression takes at most one `+` or `-`; the rest of the line is left.
    assert_eq!(parse_hir("fn a() { x = 1 + 2 + 3; }").unwrap_err(), ParseHirError::NoFunction);
}

#[test]
fn test_parse_trailing_comma_in_call() {
    assert_eq!(parse_hir("fn a() { f(1,); }").unwrap_err(), ParseHirError::NoFunction);
    assert!(parse_hir("fn a() { f(1 , 2); }").is_ok());
}

#[test]
fn test_parse_arrow_without_type() {
    assert_eq!(parse_hir("fn a() -> { }").unwrap_err(), ParseHirError::NoFunction);
}

#[test]
fn test_parse_unicode_identifier() {
    let prog = parse_hir("fn é() {}").unwrap();
    assert_eq!(prog.fns[0].name, "é");
    assert_eq!(parse_hir("fn $() {}").unwrap_err(), ParseHirError::NoFunction);
}

#[test]
fn test_hir_stop_reasons() {
    assert_eq!(hir_stop_reason("fn a(x: u16) {}"), Some(HirPanic::UnknownType));
    assert_eq!(hir_stop_reason("fn a() { let x : i8 = 1; }"), Some(HirPanic::UnknownType));
    assert_eq!(hir_stop_reason("fn a() -> bool {}"), Some(HirPanic::UnknownType));
    assert_eq!(hir_stop_reason("fn a() {} fn b() {} fn a() {}"), Some(HirPanic::DuplicateFunction));
    assert_eq!(hir_stop_reason("fn a() {} fn b() {}"), None);
    assert_eq!(hir_stop_reason("not a program"), None);
}
