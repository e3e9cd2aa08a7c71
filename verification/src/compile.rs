//! The whole pipeline, from a syntax tree to assembly, and what it
//! guarantees: the code that comes out returns the value that the source
//! expression denotes.

use vstd::prelude::*;
use crate::c_ast::{applied, literal, CompUnit, Exp, FuncType, Number, UnaryExp, UnaryOp};
use crate::lexer::{proper_ident, SyntaxError};
use crate::parser::{parse, parsed, unit_view, UnitView};
use crate::codegen::{block_code, block_held, blocks_code, func_code, func_offset, funcs_code, lemma_program_function_returns, lemma_program_returns, program_code, symbol, value_code, CodeGenCtx, GenerateAsm};
use crate::ir::{program_complete, program_wf, valid_name, ProgramData, ValueKind, ValueRef};
use crate::export::{exported, ir_text, koopa_ir_text, printable, text_view};
use crate::numeral::decimal;
use crate::koopa_ast::{lemma_identity_emits_nothing, lemma_lowered_function, lowered_function, symbol_name, unary_insts, unary_values, LowerCtx};
use crate::riscv::{call_result, find_label, listing, render_lines, run, AsmLine, LineView, Outcome};

verus! {

/// The assembly that a compilation unit is compiled to.
pub open spec fn compiled_code(unit: CompUnit) -> Seq<LineView> {
    program_code(seq![lowered_function(unit.func_def)])
}

/// The label under which the function `ident` stands in the assembly: the
/// identifier without a sigil.
pub open spec fn label_of(ident: Seq<char>) -> Seq<char> {
    symbol(symbol_name(ident))
}

/// Lowers a compilation unit into a program of its one function.
pub fn lower(unit: CompUnit) -> (program: ProgramData)
    requires
        valid_name(symbol_name(unit.func_def.ident@)),
    ensures
        program@ == seq![lowered_function(unit.func_def)],
        program.wf(),
        program_complete(program@),
{
    let mut ctx = LowerCtx::new();
    ctx.build_program_from_comp_unit(unit);
    assert(ctx.program@ =~= seq![lowered_function(unit.func_def)]);
    ctx.program
}

/// Generates the assembly of a program.
pub fn generate(program: &ProgramData) -> (code: Vec<AsmLine>)
    requires
        program.wf(),
    ensures
        code.deep_view() == program_code(program@),
{
    let mut ctx = CodeGenCtx::new(program);
    assert(ctx.lines() =~= Seq::empty());
    program.generate(&mut ctx);
    assert(ctx.lines() =~= program_code(program@));
    ctx.out
}

/// Compiles a compilation unit to assembly. Run from its first line or
/// called by its label, with anything in `a0`, the code returns the value of
/// the unit's expression.
pub fn compile(unit: CompUnit) -> (code: Vec<AsmLine>)
    requires
        valid_name(symbol_name(unit.func_def.ident@)),
    ensures
        code.deep_view() == compiled_code(unit),
        forall|a0: i32| #[trigger] run(code.deep_view(), a0) == Outcome::Returned(unit.value()),
        call_result(code.deep_view(), label_of(unit.func_def.ident@)) == Some(unit.value()),
{
    let ghost def = unit.func_def;
    let ghost value = unit.value();
    let program = lower(unit);
    proof {
        program.lemma_tables_fit();
        assert(program@[0] == lowered_function(def));
        assert forall|a0: i32| #[trigger]
            run(compiled_code(unit), a0) == Outcome::Returned(value) by {
            lemma_compiled_returns(unit, a0);
        }
        lemma_compiled_call(unit);
    }
    generate(&program)
}

/// Compiles a compilation unit to the text of its assembly.
pub fn compile_to_text(unit: CompUnit) -> (text: String)
    requires
        valid_name(symbol_name(unit.func_def.ident@)),
    ensures
        text@ == listing(compiled_code(unit)),
{
    let code = compile(unit);
    render_lines(&code)
}

/// A name that the lexer gives an identifier makes a valid symbol name.
pub proof fn lemma_proper_ident_lowers(ident: Seq<char>)
    requires
        proper_ident(ident),
    ensures
        valid_name(symbol_name(ident)),
        label_of(ident) == ident,
{
    assert((seq!['@'] + ident).skip(1) =~= ident);
}

/// Compiles a source text to the text of its assembly, or finds the first
/// syntax error in it.
pub fn compile_source(source: &[u8]) -> (result: Result<String, SyntaxError>)
    ensures
        match result {
            Ok(text) => exists|unit: CompUnit|
                parsed(source@) == Ok::<UnitView, SyntaxError>(unit_view(unit))
                    && unit.func_def.func_type == FuncType::Int && text@ == listing(
                    compiled_code(unit),
                ),
            Err(e) => parsed(source@) == Err::<UnitView, SyntaxError>(e),
        },
{
    match parse(source) {
        Err(e) => Err(e),
        Ok(unit) => {
            proof {
                lemma_proper_ident_lowers(unit.func_def.ident@);
            }
            Ok(compile_to_text(unit))
        },
    }
}

/// Compiles a compilation unit to the text form of Koopa IR: the unit is
/// lowered, rebuilt as a Koopa IR program and printed. The result is what
/// the printer gives for that program.
pub fn compile_to_koopa(unit: CompUnit) -> (text: Option<String>)
    requires
        valid_name(symbol_name(unit.func_def.ident@)),
    ensures
        exists|p: koopa::ir::Program|
            exported(seq![lowered_function(unit.func_def)], p) && text_view(text)
                == koopa_ir_text(p),
{
    let ghost def = unit.func_def;
    let program = lower(unit);
    proof {
        program.lemma_tables_fit();
        assert(program@[0] == lowered_function(def));
        lemma_lowered_function(def);
        assert(printable(program@));
    }
    ir_text(&program)
}

/// Compilation keeps the meaning of a program: the code of a unit, run from
/// its first line with anything in `a0`, returns the value of the unit's
/// expression.
pub proof fn lemma_compiled_returns(unit: CompUnit, a0: i32)
    requires
        valid_name(symbol_name(unit.func_def.ident@)),
        lowered_function(unit.func_def).values.len() <= usize::MAX,
    ensures
        run(compiled_code(unit), a0) == Outcome::Returned(unit.value()),
{
    let funcs = seq![lowered_function(unit.func_def)];
    lemma_lowered_function(unit.func_def);
    assert(program_wf(funcs));
    assert(program_complete(funcs));
    lemma_program_returns(funcs, a0);
}

/// A call of the compiled function by its label returns the value of the
/// unit's expression.
pub proof fn lemma_compiled_call(unit: CompUnit)
    requires
        valid_name(symbol_name(unit.func_def.ident@)),
        lowered_function(unit.func_def).values.len() <= usize::MAX,
    ensures
        call_result(compiled_code(unit), label_of(unit.func_def.ident@)) == Some(unit.value()),
{
    let funcs = seq![lowered_function(unit.func_def)];
    let code = compiled_code(unit);
    let name = label_of(unit.func_def.ident@);
    lemma_lowered_function(unit.func_def);
    assert(program_wf(funcs));
    assert(program_complete(funcs));
    lemma_program_function_returns(funcs, 0, 0);
    assert(funcs_code(funcs, 0) =~= Seq::empty());
    assert(func_offset(funcs, 0) == 2);
    reveal_with_fuel(find_label, 3);
    assert(code[0] == LineView::Text);
    assert(code[1] == LineView::GlobalMain);
    assert(find_label(code, name, 0) == Some(2int));
}

/// The expression whose whole is the unary expression `e`.
pub open spec fn expression(e: UnaryExp) -> Exp {
    Exp { unary_exp: Box::new(e) }
}

/// A function that returns a literal compiles to a load of that literal into
/// `a0` and a return, under the two directives and its label, and to nothing
/// else.
pub proof fn lemma_literal_code(unit: CompUnit, n: Number)
    requires
        unit.func_def.block.stmt.exp == expression(literal(n)),
    ensures
        compiled_code(unit) == seq![
            LineView::Text,
            LineView::GlobalMain,
            LineView::Label(label_of(unit.func_def.ident@)),
            LineView::LoadImm(n),
            LineView::Ret,
        ],
{
    let f = lowered_function(unit.func_def);
    let ret = ValueKind::Return(Some(ValueRef(0)));
    reveal_with_fuel(unary_values, 2);
    reveal_with_fuel(unary_insts, 2);
    assert(f.values =~= seq![ValueKind::Integer(n), ret]);
    assert(f.blocks[0].insts =~= seq![ValueRef(1)]);
    assert(f.blocks.len() == 1);
    let insts = f.blocks[0].insts;
    assert(insts.drop_last() =~= Seq::empty());
    assert(block_code(f, insts.drop_last()) =~= Seq::empty());
    assert(block_held(f, insts.drop_last()) == None::<ValueRef>);
    assert(value_code(f, None, ValueKind::Integer(n)) =~= seq![LineView::LoadImm(n)]);
    assert(value_code(f, None, ret) =~= seq![LineView::LoadImm(n), LineView::Ret]);
    assert(block_code(f, insts) =~= seq![LineView::LoadImm(n), LineView::Ret]);
    assert(blocks_code(f, 0) =~= Seq::empty());
    assert(blocks_code(f, 1) =~= block_code(f, insts));
    let funcs = seq![f];
    assert(funcs_code(funcs, 0) =~= Seq::empty());
    assert(funcs_code(funcs, 1) =~= func_code(f));
    assert(compiled_code(unit) =~= seq![
        LineView::Text,
        LineView::GlobalMain,
        LineView::Label(label_of(unit.func_def.ident@)),
        LineView::LoadImm(n),
        LineView::Ret,
    ]);
}

/// The text of the assembly of a function that returns a literal: the two
/// directives, the label, the load of the literal as a decimal numeral, and
/// the return, each on a line of its own.
pub proof fn lemma_literal_text(unit: CompUnit, n: Number)
    requires
        unit.func_def.block.stmt.exp == expression(literal(n)),
    ensures
        listing(compiled_code(unit)) == "\t.text"@ + "\n"@ + "\t.global main"@ + "\n"@ + label_of(
            unit.func_def.ident@,
        ) + ":"@ + "\n"@ + "\tli a0, "@ + decimal(n as int) + "\n"@ + "\tret"@ + "\n"@,
{
    lemma_literal_code(unit, n);
    let code = compiled_code(unit);
    let four = code.drop_last();
    let three = four.drop_last();
    let two = three.drop_last();
    let one = two.drop_last();
    assert(one.drop_last() =~= Seq::empty());
    assert(listing(one.drop_last()) =~= Seq::empty());
    assert(listing(one) =~= "\t.text"@ + "\n"@);
    assert(listing(two) =~= listing(one) + "\t.global main"@ + "\n"@);
    assert(listing(three) =~= listing(two) + label_of(unit.func_def.ident@) + ":"@ + "\n"@);
    assert(listing(four) =~= listing(three) + "\tli a0, "@ + decimal(n as int) + "\n"@);
    assert(listing(code) =~= listing(four) + "\tret"@ + "\n"@);
}

/// Negating twice gives the operand back, `i32::MIN` included.
pub proof fn lemma_negation_involutive(x: i32)
    ensures
        UnaryOp::MINUS.apply(UnaryOp::MINUS.apply(x)) == x,
{
}

/// `!` gives 1 for zero and 0 for all else, so `!!` gives 0 for zero and 1
/// for all else.
pub proof fn lemma_not_canonical(x: i32)
    ensures
        UnaryOp::BANG.apply(x) == if x == 0 { 1i32 } else { 0i32 },
        UnaryOp::BANG.apply(UnaryOp::BANG.apply(x)) == if x == 0 { 0i32 } else { 1i32 },
{
}

/// A literal lowers to one value and denotes itself.
proof fn lemma_literal_size(n: Number)
    ensures
        unary_values(literal(n), 0).len() == 1,
        literal(n).value() == n,
{
    reveal_with_fuel(unary_values, 2);
    reveal_with_fuel(UnaryExp::value, 2);
}

/// An operator adds at most one value to those of its operand, and the
/// expression denotes what the operator makes of the operand's value.
proof fn lemma_applied_size(op: UnaryOp, e: UnaryExp)
    ensures
        unary_values(applied(op, e), 0).len() <= unary_values(
            e,
            0,
        ).len() + 1,
        applied(op, e).value() == op.apply(e.value()),
{
}

/// The code of a function that returns `op2 op1 n` for a literal `n`
/// returns what the two operators make of `n`.
pub proof fn lemma_two_operators(unit: CompUnit, op1: UnaryOp, op2: UnaryOp, n: Number, a0: i32)
    requires
        valid_name(symbol_name(unit.func_def.ident@)),
        unit.func_def.block.stmt.exp == expression(applied(op2, applied(op1, literal(n)))),
    ensures
        run(compiled_code(unit), a0) == Outcome::Returned(op2.apply(op1.apply(n))),
{
    lemma_literal_size(n);
    lemma_applied_size(op1, literal(n));
    lemma_applied_size(op2, applied(op1, literal(n)));
    lemma_compiled_returns(unit, a0);
}

/// The code of a function that returns `op n` for a literal `n` returns
/// what the operator makes of `n`.
pub proof fn lemma_one_operator(unit: CompUnit, op: UnaryOp, n: Number, a0: i32)
    requires
        valid_name(symbol_name(unit.func_def.ident@)),
        unit.func_def.block.stmt.exp == expression(applied(op, literal(n))),
    ensures
        run(compiled_code(unit), a0) == Outcome::Returned(op.apply(n)),
{
    lemma_literal_size(n);
    lemma_applied_size(op, literal(n));
    lemma_compiled_returns(unit, a0);
}

/// Double negation: the code of a function that returns `-(-n)` returns `n`.
pub proof fn lemma_double_negation(unit: CompUnit, n: Number, a0: i32)
    requires
        valid_name(symbol_name(unit.func_def.ident@)),
        unit.func_def.block.stmt.exp == expression(
            applied(UnaryOp::MINUS, applied(UnaryOp::MINUS, literal(n))),
        ),
    ensures
        run(compiled_code(unit), a0) == Outcome::Returned(n),
{
    lemma_two_operators(unit, UnaryOp::MINUS, UnaryOp::MINUS, n, a0);
}

/// Double logical not: the code of a function that returns `!!n` returns 1
/// where `n` is not zero and 0 where it is.
pub proof fn lemma_double_not(unit: CompUnit, n: Number, a0: i32)
    requires
        valid_name(symbol_name(unit.func_def.ident@)),
        unit.func_def.block.stmt.exp == expression(
            applied(UnaryOp::BANG, applied(UnaryOp::BANG, literal(n))),
        ),
    ensures
        run(compiled_code(unit), a0) == Outcome::Returned(if n == 0 { 0i32 } else { 1i32 }),
{
    lemma_two_operators(unit, UnaryOp::BANG, UnaryOp::BANG, n, a0);
}

/// Logical not: the code of a function that returns `!n` returns 1 where
/// `n` is zero and 0 where it is not.
pub proof fn lemma_single_not(unit: CompUnit, n: Number, a0: i32)
    requires
        valid_name(symbol_name(unit.func_def.ident@)),
        unit.func_def.block.stmt.exp == expression(applied(UnaryOp::BANG, literal(n))),
    ensures
        run(compiled_code(unit), a0) == Outcome::Returned(if n == 0 { 1i32 } else { 0i32 }),
{
    lemma_one_operator(unit, UnaryOp::BANG, n, a0);
}

/// The operator `+` changes nothing in what a unit compiles to: two units
/// that differ only in a `+` at the head of the expression lower to the same
/// function and compile to the same code.
pub proof fn lemma_identity_compiles_alike(with: CompUnit, without: CompUnit, e: UnaryExp)
    requires
        with.func_def.ident@ == without.func_def.ident@,
        with.func_def.func_type == without.func_def.func_type,
        with.func_def.block.stmt.exp == expression(applied(UnaryOp::PLUS, e)),
        without.func_def.block.stmt.exp == expression(e),
    ensures
        lowered_function(with.func_def) == lowered_function(without.func_def),
        compiled_code(with) == compiled_code(without),
{
    lemma_identity_emits_nothing(e, 0);
}

} // verus!
