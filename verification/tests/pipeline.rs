use sysy_compiler::c_ast::{Block, CompUnit, Exp, FuncDef, FuncType, PrimaryExp, Stmt, UnaryExp, UnaryOp};
use sysy_compiler::compile::{compile, compile_to_text, generate, lower};
use sysy_compiler::riscv::{call, execute, AsmLine, Outcome};

fn number(n: i32) -> UnaryExp {
    UnaryExp::PrimaryUnary { primary_exp: Box::new(PrimaryExp::NumberPrimary { num: n }) }
}

fn unary(op: UnaryOp, e: UnaryExp) -> UnaryExp {
    UnaryExp::OpUnaryUnary { unary_op: op, unary_exp: Box::new(e) }
}

fn paren(e: UnaryExp) -> UnaryExp {
    UnaryExp::PrimaryUnary {
        primary_exp: Box::new(PrimaryExp::ExpPrimary { exp: Box::new(Exp { unary_exp: Box::new(e) }) }),
    }
}

fn unit(ident: &str, e: UnaryExp) -> CompUnit {
    CompUnit {
        func_def: FuncDef {
            func_type: FuncType::Int,
            ident: ident.to_string(),
            block: Block { stmt: Stmt { exp: Exp { unary_exp: Box::new(e) } } },
        },
    }
}

#[test]
fn literal_zero_loads_and_returns() {
    let code = compile(unit("main", number(0)));
    assert_eq!(
        code,
        vec![
            AsmLine::Text,
            AsmLine::GlobalMain,
            AsmLine::Label("main".to_string()),
            AsmLine::LoadImm(0),
            AsmLine::Ret,
        ]
    );
    assert_eq!(call(&code, "main"), Some(0));
}

#[test]
fn literal_zero_text() {
    let text = compile_to_text(unit("main", number(0)));
    assert_eq!(text, "\t.text\n\t.global main\nmain:\n\tli a0, 0\n\tret\n");
}

#[test]
fn every_literal_is_loaded_as_written() {
    for n in [1, 9, 10, 42, 100, 2147483647, -1, -10, -2147483648] {
        let text = compile_to_text(unit("main", number(n)));
        assert_eq!(text, format!("\t.text\n\t.global main\nmain:\n\tli a0, {}\n\tret\n", n));
        let code = compile(unit("main", number(n)));
        assert_eq!(code.len(), 5);
        assert_eq!(call(&code, "main"), Some(n));
    }
}

#[test]
fn negated_five_returns_minus_five() {
    let code = compile(unit("main", unary(UnaryOp::MINUS, number(5))));
    assert_eq!(
        code,
        vec![
            AsmLine::Text,
            AsmLine::GlobalMain,
            AsmLine::Label("main".to_string()),
            AsmLine::LoadImm(5),
            AsmLine::SubFromZero,
            AsmLine::Ret,
        ]
    );
    assert_eq!(call(&code, "main"), Some(-5));
    let text = compile_to_text(unit("main", unary(UnaryOp::MINUS, number(5))));
    assert_eq!(text, "\t.text\n\t.global main\nmain:\n\tli a0, 5\n\tsub a0, x0, a0\n\tret\n");
}

#[test]
fn not_zero_returns_one() {
    let code = compile(unit("main", unary(UnaryOp::BANG, number(0))));
    assert_eq!(
        code,
        vec![
            AsmLine::Text,
            AsmLine::GlobalMain,
            AsmLine::Label("main".to_string()),
            AsmLine::LoadImm(0),
            AsmLine::SetEqZero,
            AsmLine::Ret,
        ]
    );
    assert_eq!(call(&code, "main"), Some(1));
}

#[test]
fn double_negation_gives_the_operand_back() {
    for n in [0, 1, -1, 5, 2147483647, -2147483648] {
        let e = unary(UnaryOp::MINUS, unary(UnaryOp::MINUS, number(n)));
        let code = compile(unit("main", e));
        assert_eq!(call(&code, "main"), Some(n));
        assert_eq!(execute(&code, 0, 77), Outcome::Returned(n));
    }
}

#[test]
fn negating_the_least_integer_wraps() {
    let code = compile(unit("main", unary(UnaryOp::MINUS, number(-2147483648))));
    assert_eq!(call(&code, "main"), Some(-2147483648));
}

#[test]
fn double_not_is_zero_or_one() {
    for (n, once, twice) in [(0, 1, 0), (1, 0, 1), (7, 0, 1), (-3, 0, 1), (-2147483648, 0, 1)] {
        let code = compile(unit("main", unary(UnaryOp::BANG, number(n))));
        assert_eq!(call(&code, "main"), Some(once));
        let code = compile(unit("main", unary(UnaryOp::BANG, unary(UnaryOp::BANG, number(n)))));
        assert_eq!(call(&code, "main"), Some(twice));
    }
}

#[test]
fn identity_and_parentheses_leave_no_trace() {
    let plain = lower(unit("main", unary(UnaryOp::MINUS, number(3))));
    let dressed = lower(unit(
        "main",
        unary(UnaryOp::PLUS, paren(unary(UnaryOp::MINUS, unary(UnaryOp::PLUS, paren(number(3)))))),
    ));
    assert_eq!(generate(&plain), generate(&dressed));
    assert_eq!(format!("{:?}", plain), format!("{:?}", dressed));
}

#[test]
fn mixed_operators_nest_from_the_inside() {
    // -!-(+4) is -(!(-4)) is -(0) is 0; !-!0 is !(-1) is 0.
    let e = unary(UnaryOp::MINUS, unary(UnaryOp::BANG, unary(UnaryOp::MINUS, paren(unary(UnaryOp::PLUS, number(4))))));
    let code = compile(unit("main", e));
    assert_eq!(
        code[3..],
        [AsmLine::LoadImm(4), AsmLine::SubFromZero, AsmLine::SetEqZero, AsmLine::SubFromZero, AsmLine::Ret]
    );
    assert_eq!(call(&code, "main"), Some(0));
    let e = unary(UnaryOp::BANG, unary(UnaryOp::MINUS, unary(UnaryOp::BANG, number(0))));
    assert_eq!(call(&compile(unit("main", e)), "main"), Some(0));
}

#[test]
fn sigil_is_added_once_and_dropped_in_the_label() {
    let program = lower(unit("main", number(1)));
    assert_eq!(program.func(sysy_compiler::ir::FuncRef(0)).name(), "@main");
    let program = lower(unit("@start", number(1)));
    assert_eq!(program.func(sysy_compiler::ir::FuncRef(0)).name(), "@start");
    let code = generate(&program);
    assert_eq!(code[2], AsmLine::Label("start".to_string()));
    assert_eq!(call(&code, "start"), Some(1));
    assert_eq!(call(&code, "main"), None);
}
