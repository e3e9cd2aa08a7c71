use sysy_compiler::c_ast::{Block, CompUnit, Exp, FuncDef, FuncType, PrimaryExp, Stmt, UnaryExp, UnaryOp};
use sysy_compiler::codegen::{CodeGenCtx, GenerateAsm};
use sysy_compiler::compile::generate;
use sysy_compiler::ir::{BlockRef, FuncRef, FunctionData, ProgramData, Type, ValueKind, ValueRef};
use sysy_compiler::koopa_ast::LowerCtx;
use sysy_compiler::numeral::{push_decimal, push_digits};
use sysy_compiler::riscv::{call, execute, render_lines, AsmLine, Outcome};

fn constant(n: i32) -> UnaryExp {
    UnaryExp::PrimaryUnary { primary_exp: Box::new(PrimaryExp::NumberPrimary { num: n }) }
}

fn apply(op: UnaryOp, e: UnaryExp) -> UnaryExp {
    UnaryExp::OpUnaryUnary { unary_op: op, unary_exp: Box::new(e) }
}

fn def(ident: &str, e: UnaryExp) -> FuncDef {
    FuncDef {
        func_type: FuncType::Int,
        ident: ident.to_string(),
        block: Block { stmt: Stmt { exp: Exp { unary_exp: Box::new(e) } } },
    }
}

fn kinds(data: &FunctionData) -> Vec<ValueKind> {
    (0..data.value_count()).map(|i| data.value(ValueRef(i)).kind()).collect()
}

#[test]
fn func_type_int_is_a_32_bit_integer() {
    assert_eq!(FuncType::Int.to_koopa_type(), Type::Int32);
}

#[test]
fn lowered_function_has_one_block_that_ends_in_its_only_return() {
    let mut ctx = LowerCtx::new();
    ctx.build_program_from_comp_unit(CompUnit {
        func_def: def("main", apply(UnaryOp::MINUS, apply(UnaryOp::BANG, constant(2)))),
    });
    assert_eq!(ctx.cur_bb, None);
    assert_eq!(ctx.program.func_count(), 1);
    let data = ctx.program.func(FuncRef(0));
    assert_eq!(data.name(), "@main");
    assert_eq!(data.ret_type(), Type::Int32);
    assert_eq!(
        kinds(data),
        vec![
            ValueKind::Integer(2),
            ValueKind::LogicalNot(ValueRef(0)),
            ValueKind::Negate(ValueRef(1)),
            ValueKind::Return(Some(ValueRef(2))),
        ]
    );
    assert_eq!(data.bb_count(), 1);
    let entry = data.bb(BlockRef(0));
    assert_eq!(entry.name(), "%entry");
    assert_eq!(entry.insts(), &vec![ValueRef(1), ValueRef(2), ValueRef(3)]);
    let returns = entry
        .insts()
        .iter()
        .filter(|v| matches!(data.value(**v).kind(), ValueKind::Return(_)))
        .count();
    assert_eq!(returns, 1);
    assert!(matches!(data.value(*entry.insts().last().unwrap()).kind(), ValueKind::Return(_)));
}

#[test]
fn a_literal_is_a_constant_outside_the_block() {
    let mut ctx = LowerCtx::new();
    ctx.lower_func_def(&def("main", constant(-7)));
    let data = ctx.program.func(FuncRef(0));
    assert_eq!(kinds(data), vec![ValueKind::Integer(-7), ValueKind::Return(Some(ValueRef(0)))]);
    assert_eq!(data.bb(BlockRef(0)).insts(), &vec![ValueRef(1)]);
}

#[test]
fn two_definitions_make_two_functions_in_order() {
    let mut ctx = LowerCtx::new();
    ctx.lower_func_def(&def("first", constant(1)));
    ctx.lower_func_def(&def("second", apply(UnaryOp::MINUS, constant(2))));
    assert_eq!(ctx.program.func_count(), 2);
    assert_eq!(ctx.program.func(FuncRef(0)).name(), "@first");
    assert_eq!(ctx.program.func(FuncRef(1)).name(), "@second");
    let code = generate(&ctx.program);
    assert_eq!(
        code,
        vec![
            AsmLine::Text,
            AsmLine::GlobalMain,
            AsmLine::Label("first".to_string()),
            AsmLine::LoadImm(1),
            AsmLine::Ret,
            AsmLine::Label("second".to_string()),
            AsmLine::LoadImm(2),
            AsmLine::SubFromZero,
            AsmLine::Ret,
        ]
    );
    assert_eq!(call(&code, "first"), Some(1));
    assert_eq!(call(&code, "second"), Some(-2));
    assert_eq!(execute(&code, 0, 9), Outcome::Returned(1));
    assert_eq!(execute(&code, 5, 9), Outcome::Returned(-2));
}

#[test]
fn lowering_step_by_step_fills_the_open_block() {
    let mut ctx = LowerCtx::new();
    let func = ctx.program.new_func(FunctionData::new("@f".to_string(), Type::Int32));
    let bb = ctx.program.func_mut(func).new_bb("%body".to_string());
    ctx.cur_bb = Some(bb);
    let seven = ctx.lower_unary_exp(func, &apply(UnaryOp::PLUS, constant(7)));
    assert_eq!(seven, ValueRef(0));
    let negated = ctx.lower_primary_exp(
        func,
        &PrimaryExp::ExpPrimary { exp: Box::new(Exp { unary_exp: Box::new(apply(UnaryOp::MINUS, constant(8))) }) },
    );
    assert_eq!(negated, ValueRef(2));
    let last = ctx.lower_exp(func, &Exp { unary_exp: Box::new(apply(UnaryOp::BANG, constant(9))) });
    assert_eq!(last, ValueRef(4));
    ctx.lower_stmt(func, &Stmt { exp: Exp { unary_exp: Box::new(constant(1)) } });
    assert_eq!(ctx.cur_bb, Some(bb));
    let data = ctx.program.func(func);
    assert_eq!(
        kinds(data),
        vec![
            ValueKind::Integer(7),
            ValueKind::Integer(8),
            ValueKind::Negate(ValueRef(1)),
            ValueKind::Integer(9),
            ValueKind::LogicalNot(ValueRef(3)),
            ValueKind::Integer(1),
            ValueKind::Return(Some(ValueRef(5))),
        ]
    );
    assert_eq!(data.bb(bb).insts(), &vec![ValueRef(2), ValueRef(4), ValueRef(6)]);
    // The value returned is not the one that the last instruction left in
    // the register, so it is loaded anew.
    let code = generate(&ctx.program);
    assert_eq!(
        code[3..],
        [
            AsmLine::LoadImm(8),
            AsmLine::SubFromZero,
            AsmLine::LoadImm(9),
            AsmLine::SetEqZero,
            AsmLine::LoadImm(1),
            AsmLine::Ret,
        ]
    );
    assert_eq!(call(&code, "f"), Some(1));
}

#[test]
fn lower_function_body_and_block_close_the_function() {
    let mut ctx = LowerCtx::new();
    let func = ctx.program.new_func(FunctionData::new("@g".to_string(), Type::Int32));
    let body = Block { stmt: Stmt { exp: Exp { unary_exp: Box::new(apply(UnaryOp::BANG, constant(0))) } } };
    ctx.lower_function_body(func, &body);
    assert_eq!(ctx.cur_bb, None);
    assert_eq!(ctx.program.func(func).bb(BlockRef(0)).name(), "%entry");
    assert_eq!(call(&generate(&ctx.program), "g"), Some(1));

    let func = ctx.program.new_func(FunctionData::new("@h".to_string(), Type::Int32));
    let bb = ctx.program.func_mut(func).new_bb("%only".to_string());
    ctx.cur_bb = Some(bb);
    ctx.lower_block(func, &body);
    assert_eq!(ctx.program.func(func).bb(bb).insts(), &vec![ValueRef(1), ValueRef(2)]);
    assert_eq!(call(&generate(&ctx.program), "h"), Some(1));
}

#[test]
fn an_operand_that_is_not_in_the_register_is_computed_again() {
    let mut program = ProgramData::new();
    let mut data = FunctionData::new("%helper".to_string(), Type::Int32);
    let bb = data.new_bb("%entry".to_string());
    let five = data.new_value(ValueKind::Integer(5));
    let neg = data.new_value(ValueKind::Negate(five));
    let not = data.new_value(ValueKind::LogicalNot(five));
    let ret = data.new_value(ValueKind::Return(Some(neg)));
    data.push_inst(bb, neg);
    data.push_inst(bb, not);
    data.push_inst(bb, ret);
    program.new_func(data);
    let code = generate(&program);
    assert_eq!(
        code,
        vec![
            AsmLine::Text,
            AsmLine::GlobalMain,
            AsmLine::Label("helper".to_string()),
            AsmLine::LoadImm(5),
            AsmLine::SubFromZero,
            AsmLine::LoadImm(5),
            AsmLine::SetEqZero,
            AsmLine::LoadImm(5),
            AsmLine::SubFromZero,
            AsmLine::Ret,
        ]
    );
    assert_eq!(call(&code, "helper"), Some(-5));
}

#[test]
fn generator_can_be_driven_entity_by_entity() {
    let mut program = ProgramData::new();
    let mut data = FunctionData::new("@main".to_string(), Type::Unit);
    let bb = data.new_bb("%entry".to_string());
    let three = data.new_value(ValueKind::Integer(3));
    let ret = data.new_value(ValueKind::Return(None));
    data.push_inst(bb, three);
    data.push_inst(bb, ret);
    let func = program.new_func(data);

    let mut ctx = CodeGenCtx::new(&program);
    assert_eq!(ctx.cur_func, None);
    ctx.cur_func = Some(func);
    let data = program.func(func);
    data.value(three).generate(&mut ctx);
    assert_eq!(ctx.out, vec![AsmLine::LoadImm(3)]);
    assert_eq!(ctx.in_a0, None);
    data.value(ret).generate(&mut ctx);
    assert_eq!(ctx.out, vec![AsmLine::LoadImm(3), AsmLine::Ret]);

    let mut ctx = CodeGenCtx::new(&program);
    ctx.cur_func = Some(func);
    data.bb(bb).generate(&mut ctx);
    assert_eq!(ctx.out, vec![AsmLine::LoadImm(3), AsmLine::Ret]);
    assert_eq!(ctx.in_a0, Some(three));

    let mut ctx = CodeGenCtx::new(&program);
    ctx.cur_func = Some(func);
    data.generate(&mut ctx);
    assert_eq!(ctx.out, vec![AsmLine::Label("main".to_string()), AsmLine::LoadImm(3), AsmLine::Ret]);

    let mut ctx = CodeGenCtx::new(&program);
    program.generate(&mut ctx);
    assert_eq!(ctx.cur_func, Some(func));
    assert_eq!(
        ctx.out,
        vec![
            AsmLine::Text,
            AsmLine::GlobalMain,
            AsmLine::Label("main".to_string()),
            AsmLine::LoadImm(3),
            AsmLine::Ret,
        ]
    );
    assert_eq!(execute(&ctx.out, 0, 0), Outcome::Returned(3));
}

#[test]
fn an_empty_program_is_the_two_directives() {
    let program = ProgramData::new();
    let code = generate(&program);
    assert_eq!(code, vec![AsmLine::Text, AsmLine::GlobalMain]);
    assert_eq!(render_lines(&code), "\t.text\n\t.global main\n");
    assert_eq!(execute(&code, 0, 4), Outcome::Running(4));
    assert_eq!(call(&code, "main"), None);
}

#[test]
fn each_line_is_written_in_its_own_way() {
    assert_eq!(AsmLine::Text.render(), "\t.text");
    assert_eq!(AsmLine::GlobalMain.render(), "\t.global main");
    assert_eq!(AsmLine::Label("f_1".to_string()).render(), "f_1:");
    assert_eq!(AsmLine::LoadImm(-2147483648).render(), "\tli a0, -2147483648");
    assert_eq!(AsmLine::LoadImm(1000).render(), "\tli a0, 1000");
    assert_eq!(AsmLine::SubFromZero.render(), "\tsub a0, x0, a0");
    assert_eq!(AsmLine::SetEqZero.render(), "\tseqz a0, a0");
    assert_eq!(AsmLine::Ret.render(), "\tret");
    assert_eq!(render_lines(&vec![]), "");
}

#[test]
fn running_follows_the_register() {
    let code = vec![
        AsmLine::LoadImm(-2147483648),
        AsmLine::SubFromZero,
        AsmLine::Label("mid".to_string()),
        AsmLine::SetEqZero,
        AsmLine::SetEqZero,
        AsmLine::SubFromZero,
    ];
    assert_eq!(execute(&code, 0, 0), Outcome::Running(-1));
    assert_eq!(execute(&code, 1, 6), Outcome::Running(-1));
    assert_eq!(execute(&code, 3, 0), Outcome::Running(0));
    assert_eq!(execute(&code, 5, 12), Outcome::Running(-12));
    assert_eq!(execute(&code, 6, 12), Outcome::Running(12));
    assert_eq!(call(&code, "mid"), None);
    assert_eq!(call(&vec![AsmLine::Label("mid".to_string()), AsmLine::Ret], "mid"), Some(0));
}

#[test]
fn numerals_are_appended_digit_by_digit() {
    let mut s = String::from("n=");
    push_digits(&mut s, 0);
    push_digits(&mut s, 18446744073709551615);
    assert_eq!(s, "n=018446744073709551615");
    let mut s = String::new();
    push_decimal(&mut s, -1);
    push_decimal(&mut s, 0);
    push_decimal(&mut s, 90210);
    assert_eq!(s, "-1090210");
}
