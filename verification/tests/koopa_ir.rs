use koopa::ir::ValueKind as KoopaValueKind;
use sysy_compiler::c_ast::{Block, CompUnit, Exp, FuncDef, FuncType, PrimaryExp, Stmt, UnaryExp, UnaryOp};
use sysy_compiler::compile::{compile_to_koopa, lower};
use sysy_compiler::export::{ir_text, is_printable, to_koopa};
use sysy_compiler::ir::{FunctionData, ProgramData, Type, ValueKind, ValueRef};

fn lit(n: i32) -> UnaryExp {
    UnaryExp::PrimaryUnary { primary_exp: Box::new(PrimaryExp::NumberPrimary { num: n }) }
}

fn op(op: UnaryOp, e: UnaryExp) -> UnaryExp {
    UnaryExp::OpUnaryUnary { unary_op: op, unary_exp: Box::new(e) }
}

fn returning(ident: &str, e: UnaryExp) -> CompUnit {
    CompUnit {
        func_def: FuncDef {
            func_type: FuncType::Int,
            ident: ident.to_string(),
            block: Block { stmt: Stmt { exp: Exp { unary_exp: Box::new(e) } } },
        },
    }
}

/// The kinds of the instructions of each block of each function, by name.
fn outline(program: &koopa::ir::Program) -> Vec<(String, Vec<Vec<String>>)> {
    let mut funcs = Vec::new();
    for &func in program.func_layout() {
        let data = program.func(func);
        let mut blocks = Vec::new();
        for (_bb, node) in data.layout().bbs() {
            let mut kinds = Vec::new();
            for &inst in node.insts().keys() {
                kinds.push(match data.dfg().value(inst).kind() {
                    KoopaValueKind::Integer(_) => "integer".to_string(),
                    KoopaValueKind::Binary(b) => format!("binary {}", b.op()),
                    KoopaValueKind::Return(_) => "ret".to_string(),
                    _ => "other".to_string(),
                });
            }
            blocks.push(kinds);
        }
        funcs.push((data.name().to_string(), blocks));
    }
    funcs
}

#[test]
fn literal_prints_as_one_return() {
    let text = compile_to_koopa(returning("main", lit(0)));
    assert_eq!(text, Some("fun @main(): i32 {\n%entry:\n  ret 0\n}\n".to_string()));
}

#[test]
fn negation_prints_as_subtraction_from_zero() {
    let text = compile_to_koopa(returning("main", op(UnaryOp::MINUS, lit(5))));
    assert_eq!(text, Some("fun @main(): i32 {\n%entry:\n  %0 = sub 0, 5\n  ret %0\n}\n".to_string()));
}

#[test]
fn logical_not_prints_as_comparison_with_zero() {
    let text = compile_to_koopa(returning("main", op(UnaryOp::BANG, lit(0))));
    assert_eq!(text, Some("fun @main(): i32 {\n%entry:\n  %0 = eq 0, 0\n  ret %0\n}\n".to_string()));
}

#[test]
fn nested_operators_print_in_order() {
    let e = op(UnaryOp::MINUS, op(UnaryOp::BANG, op(UnaryOp::PLUS, op(UnaryOp::MINUS, lit(7)))));
    let text = compile_to_koopa(returning("f", e));
    assert_eq!(
        text,
        Some(
            "fun @f(): i32 {\n%entry:\n  %0 = sub 0, 7\n  %1 = eq %0, 0\n  %2 = sub 0, %1\n  ret %2\n}\n"
                .to_string()
        )
    );
}

#[test]
fn rebuilt_program_has_the_same_outline() {
    let program = lower(returning("main", op(UnaryOp::BANG, op(UnaryOp::MINUS, lit(3)))));
    let rebuilt = to_koopa(&program);
    assert_eq!(
        outline(&rebuilt),
        vec![(
            "@main".to_string(),
            vec![vec!["binary sub".to_string(), "binary eq".to_string(), "ret".to_string()]]
        )]
    );
    let entry = rebuilt.func(rebuilt.func_layout()[0]);
    let (&bb, _) = entry.layout().bbs().iter().next().unwrap();
    assert_eq!(entry.dfg().bb(bb).name(), &Some("%entry".to_string()));
}

#[test]
fn text_read_back_gives_the_same_outline() {
    for e in [
        lit(0),
        lit(-2147483648),
        op(UnaryOp::MINUS, lit(5)),
        op(UnaryOp::BANG, op(UnaryOp::BANG, lit(9))),
        op(UnaryOp::MINUS, op(UnaryOp::PLUS, op(UnaryOp::BANG, lit(1)))),
    ] {
        let program = lower(returning("main", e));
        let rebuilt = to_koopa(&program);
        let text = ir_text(&program).unwrap();
        let read = koopa::front::Driver::from(text.clone()).generate_program().unwrap();
        assert_eq!(outline(&read), outline(&rebuilt));
        let mut again = koopa::back::KoopaGenerator::new(Vec::new());
        again.generate_on(&read).unwrap();
        assert_eq!(String::from_utf8(again.writer()).unwrap(), text);
    }
}

#[test]
fn two_functions_are_printed_in_definition_order() {
    let mut program = ProgramData::new();
    let mut first = FunctionData::new("@first".to_string(), Type::Int32);
    let bb = first.new_bb("%entry".to_string());
    let one = first.new_value(ValueKind::Integer(1));
    let ret = first.new_value(ValueKind::Return(Some(one)));
    first.push_inst(bb, ret);
    program.new_func(first);
    let mut second = FunctionData::new("@second".to_string(), Type::Unit);
    let bb = second.new_bb("%start".to_string());
    let ret = second.new_value(ValueKind::Return(None));
    second.push_inst(bb, ret);
    program.new_func(second);
    assert_eq!(
        ir_text(&program),
        Some(
            "fun @first(): i32 {\n%entry:\n  ret 1\n}\n\nfun @second() {\n%start:\n  ret\n}\n".to_string()
        )
    );
}

#[test]
fn a_constant_in_a_block_has_no_text() {
    let mut program = ProgramData::new();
    let mut func = FunctionData::new("@main".to_string(), Type::Int32);
    let bb = func.new_bb("%entry".to_string());
    let one = func.new_value(ValueKind::Integer(1));
    func.push_inst(bb, one);
    let ret = func.new_value(ValueKind::Return(Some(ValueRef(0))));
    func.push_inst(bb, ret);
    program.new_func(func);
    assert!(!is_printable(&program));
    assert_eq!(ir_text(&program), None);
    let rebuilt = to_koopa(&program);
    assert_eq!(
        outline(&rebuilt),
        vec![("@main".to_string(), vec![vec!["integer".to_string(), "ret".to_string()]])]
    );
}
