//! Lowering: a syntax tree becomes a program of the intermediate
//! representation.
//!
//! A function becomes one IR function with the single block `%entry`. Its
//! expression is lowered from the leaves up: a literal becomes a constant of
//! the value table, `-` and `!` each become one instruction on the value of
//! their operand, and `+` and parentheses become nothing at all. A `Return`
//! of the last value closes the block.

use vstd::prelude::*;
use vstd::string::*;
use crate::c_ast::{Block, CompUnit, Exp, FuncDef, PrimaryExp, Stmt, UnaryExp, UnaryOp};
use crate::ir::{program_complete, valid_name, BlockRef, BlockView, FuncRef, FunctionData, FunctionView, ProgramData, ValueRef, ValueKind};

verus! {

/// The values that lowering `e` enters into a table that holds `base` values
/// already. The last of them computes `e`.
pub open spec fn exp_values(e: Exp, base: nat) -> Seq<ValueKind>
    decreases e,
{
    unary_values(*e.unary_exp, base)
}

/// The values that lowering `e` enters into a table that holds `base` values
/// already. The last of them computes `e`.
pub open spec fn primary_values(e: PrimaryExp, base: nat) -> Seq<ValueKind>
    decreases e,
{
    match e {
        PrimaryExp::ExpPrimary { exp } => exp_values(*exp, base),
        PrimaryExp::NumberPrimary { num } => seq![ValueKind::Integer(num)],
    }
}

/// The values that lowering `e` enters into a table that holds `base` values
/// already. The last of them computes `e`.
pub open spec fn unary_values(e: UnaryExp, base: nat) -> Seq<ValueKind>
    decreases e,
{
    match e {
        UnaryExp::PrimaryUnary { primary_exp } => primary_values(*primary_exp, base),
        UnaryExp::OpUnaryUnary { unary_op, unary_exp } => {
            let inner = unary_values(*unary_exp, base);
            let operand = ValueRef((base + inner.len() - 1) as usize);
            match unary_op {
                UnaryOp::PLUS => inner,
                UnaryOp::MINUS => inner.push(ValueKind::Negate(operand)),
                UnaryOp::BANG => inner.push(ValueKind::LogicalNot(operand)),
            }
        },
    }
}

/// The instructions that lowering `e` appends to the current block: the
/// handles of those of its values that are no constants, in order.
pub open spec fn exp_insts(e: Exp, base: nat) -> Seq<ValueRef>
    decreases e,
{
    unary_insts(*e.unary_exp, base)
}

/// The instructions that lowering `e` appends to the current block.
pub open spec fn primary_insts(e: PrimaryExp, base: nat) -> Seq<ValueRef>
    decreases e,
{
    match e {
        PrimaryExp::ExpPrimary { exp } => exp_insts(*exp, base),
        PrimaryExp::NumberPrimary { num } => Seq::empty(),
    }
}

/// The instructions that lowering `e` appends to the current block.
pub open spec fn unary_insts(e: UnaryExp, base: nat) -> Seq<ValueRef>
    decreases e,
{
    match e {
        UnaryExp::PrimaryUnary { primary_exp } => primary_insts(*primary_exp, base),
        UnaryExp::OpUnaryUnary { unary_op, unary_exp } => {
            let inner = unary_insts(*unary_exp, base);
            let own = ValueRef((base + unary_values(*unary_exp, base).len()) as usize);
            match unary_op {
                UnaryOp::PLUS => inner,
                _ => inner.push(own),
            }
        },
    }
}

/// The values that lowering the statement `return e;` enters into the table:
/// those of `e`, then a `Return` of the last of them.
pub open spec fn stmt_values(e: Exp, base: nat) -> Seq<ValueKind> {
    let values = exp_values(e, base);
    values.push(ValueKind::Return(Some(ValueRef((base + values.len() - 1) as usize))))
}

/// The instructions that lowering the statement `return e;` appends to the
/// current block: those of `e`, then the `Return`.
pub open spec fn stmt_insts(e: Exp, base: nat) -> Seq<ValueRef> {
    exp_insts(e, base).push(ValueRef((base + exp_values(e, base).len()) as usize))
}

/// The function `f` with `values` entered at the end of its table and `insts`
/// appended to its block `bb`.
pub open spec fn appended(f: FunctionView, bb: int, values: Seq<ValueKind>, insts: Seq<ValueRef>) -> FunctionView {
    FunctionView {
        values: f.values + values,
        blocks: f.blocks.update(bb, BlockView { insts: f.blocks[bb].insts + insts, ..f.blocks[bb] }),
        ..f
    }
}

/// The name of the IR function for the source function `ident`: the
/// identifier behind the sigil `@`, unless it carries the sigil already.
pub open spec fn symbol_name(ident: Seq<char>) -> Seq<char> {
    if ident.len() > 0 && ident[0] == '@' {
        ident
    } else {
        seq!['@'] + ident
    }
}

/// The name of the single block of a lowered function.
pub open spec fn entry_name() -> Seq<char> {
    seq!['%', 'e', 'n', 't', 'r', 'y']
}

/// The IR function without values or blocks that a definition starts from.
pub open spec fn header(def: FuncDef) -> FunctionView {
    FunctionView {
        name: symbol_name(def.ident@),
        ret_type: def.func_type.koopa_type(),
        values: Seq::empty(),
        blocks: Seq::empty(),
    }
}

/// The function `f` with the body `block` lowered into a new block `%entry`
/// at the end of its layout.
pub open spec fn with_body(f: FunctionView, block: Block) -> FunctionView {
    let base = f.values.len();
    FunctionView {
        values: f.values + stmt_values(block.stmt.exp, base),
        blocks: f.blocks.push(
            BlockView { name: entry_name(), insts: stmt_insts(block.stmt.exp, base) },
        ),
        ..f
    }
}

/// The IR function that a definition is lowered to.
pub open spec fn lowered_function(def: FuncDef) -> FunctionView {
    with_body(header(def), def.block)
}

/// The state of one lowering pass: the program built so far and the block
/// that receives new instructions.
pub struct LowerCtx {
    /// The program built so far.
    pub program: ProgramData,
    /// The block that receives new instructions, if one is open.
    pub cur_bb: Option<BlockRef>,
}

impl LowerCtx {
    /// Whether instructions can be emitted into `func`: the program is well
    /// formed, `func` is one of its functions, and the current block is a
    /// block of `func` that has no terminator yet.
    pub open spec fn ready(&self, func: FuncRef) -> bool {
        &&& self.program.wf()
        &&& func.0 < self.program@.len()
        &&& self.cur_bb matches Some(bb) && bb.0 < self.func(func).blocks.len()
            && !self.func(func).blocks[bb.0 as int].terminated(self.func(func).values)
    }

    /// The function `func` of the program built so far.
    pub open spec fn func(&self, func: FuncRef) -> FunctionView {
        self.program@[func.0 as int]
    }

    /// Whether `after` is this state with `values` entered into the table of
    /// `func` and `insts` appended to the current block, all else unchanged.
    pub open spec fn emitted(&self, after: &LowerCtx, func: FuncRef, values: Seq<ValueKind>, insts: Seq<ValueRef>) -> bool {
        &&& after.cur_bb == self.cur_bb
        &&& after.program@ == self.program@.update(
            func.0 as int,
            appended(self.func(func), self.cur_bb.unwrap().0 as int, values, insts),
        )
    }

    /// A pass that has lowered nothing yet.
    pub fn new() -> (ctx: LowerCtx)
        ensures
            ctx.program@ == Seq::<FunctionView>::empty(),
            ctx.program.wf(),
            ctx.cur_bb is None,
    {
        LowerCtx { program: ProgramData::new(), cur_bb: None }
    }

    fn push_inst(&mut self, func: FuncRef, inst: ValueRef)
        requires
            old(self).ready(func),
            inst.0 < old(self).func(func).values.len(),
            !old(self).func(func).blocks[old(self).cur_bb.unwrap().0 as int].insts.contains(inst),
        ensures
            old(self).emitted(final(self), func, Seq::empty(), seq![inst]),
            final(self).program.wf(),
    {
        let bb = match self.cur_bb {
            Some(bb) => bb,
            None => {
                proof {
                    assert(false);
                }
                BlockRef(0)
            },
        };
        let f = self.program.func_mut(func);
        f.push_inst(bb, inst);
        proof {
            let before = old(self).func(func);
            let target = appended(before, bb.0 as int, Seq::empty(), seq![inst]);
            assert(before.wf());
            assert(target.values =~= before.values);
            assert(before.blocks[bb.0 as int].insts.push(inst) =~= before.blocks[bb.0 as int].insts
                + seq![inst]);
            assert(self.func(func) == target);
        }
    }

    fn emit_value(&mut self, func: FuncRef, kind: ValueKind) -> (v: ValueRef)
        requires
            old(self).ready(func),
            kind.defined_over(old(self).func(func).values),
        ensures
            old(self).emitted(final(self), func, seq![kind], Seq::empty()),
            final(self).ready(func),
            v.0 == old(self).func(func).values.len(),
    {
        let f = self.program.func_mut(func);
        let v = f.new_value(kind);
        proof {
            let before = old(self).func(func);
            let bb = old(self).cur_bb.unwrap().0 as int;
            let target = appended(before, bb, seq![kind], Seq::empty());
            assert(before.wf());
            assert(target.values =~= before.values.push(kind));
            assert(before.blocks[bb].insts + Seq::<ValueRef>::empty() =~= before.blocks[bb].insts);
            assert(target.blocks =~= before.blocks);
            assert(self.func(func) == target);
            assert(before.blocks[bb].wf(before.values));
        }
        v
    }

    fn emit_return_inst(&mut self, func: FuncRef, value: ValueRef)
        requires
            old(self).ready(func),
            value.0 < old(self).func(func).values.len(),
            !old(self).func(func).values[value.0 as int].is_return(),
        ensures
            old(self).emitted(
                final(self),
                func,
                seq![ValueKind::Return(Some(value))],
                seq![ValueRef(old(self).func(func).values.len() as usize)],
            ),
            final(self).program.wf(),
            final(self).func(func).blocks[old(self).cur_bb.unwrap().0 as int].terminated(
                final(self).func(func).values,
            ),
    {
        let ghost bb = self.cur_bb.unwrap().0 as int;
        let ghost before = self.func(func);
        let kind = ValueKind::Return(Some(value));
        let ret_inst = self.emit_value(func, kind);
        let ghost mid = *self;
        proof {
            assert(before.wf());
            assert(before.blocks[bb].wf(before.values));
            lemma_fresh_inst(self.func(func).blocks[bb].insts, ret_inst, before.values.len());
        }
        self.push_inst(func, ret_inst);
        proof {
            lemma_emitted_twice(
                old(self),
                &mid,
                self,
                func,
                seq![kind],
                Seq::empty(),
                Seq::empty(),
                seq![ret_inst],
            );
            assert(seq![kind] + Seq::<ValueKind>::empty() =~= seq![kind]);
            assert(Seq::<ValueRef>::empty() + seq![ret_inst] =~= seq![ret_inst]);
        }
    }

    fn func_header(&self, func_def: &FuncDef) -> (data: FunctionData)
        requires
            valid_name(symbol_name(func_def.ident@)),
        ensures
            data@ == header(*func_def),
    {
        let ident = func_def.ident.as_str();
        let name = if ident.unicode_len() > 0 && ident.get_char(0) == '@' {
            func_def.ident.clone()
        } else {
            proof {
                reveal_strlit("@");
            }
            let name = String::from_str("@").concat(ident);
            assert(name@ =~= seq!['@'] + func_def.ident@);
            name
        };
        FunctionData::new(name, func_def.func_type.to_koopa_type())
    }

    /// Lowers the expression `e` into the current block of `func` and returns
    /// the value that computes it.
    pub fn lower_exp(&mut self, func: FuncRef, e: &Exp) -> (v: ValueRef)
        requires
            old(self).ready(func),
        ensures
            old(self).emitted(
                final(self),
                func,
                exp_values(*e, old(self).func(func).values.len()),
                exp_insts(*e, old(self).func(func).values.len()),
            ),
            final(self).ready(func),
            v.0 == old(self).func(func).values.len() + exp_values(
                *e,
                old(self).func(func).values.len(),
            ).len() - 1,
            !final(self).func(func).values[v.0 as int].is_return(),
        decreases e,
    {
        self.lower_unary_exp(func, &e.unary_exp)
    }

    /// Lowers the expression `e` into the current block of `func` and returns
    /// the value that computes it.
    pub fn lower_primary_exp(&mut self, func: FuncRef, e: &PrimaryExp) -> (v: ValueRef)
        requires
            old(self).ready(func),
        ensures
            old(self).emitted(
                final(self),
                func,
                primary_values(*e, old(self).func(func).values.len()),
                primary_insts(*e, old(self).func(func).values.len()),
            ),
            final(self).ready(func),
            v.0 == old(self).func(func).values.len() + primary_values(
                *e,
                old(self).func(func).values.len(),
            ).len() - 1,
            !final(self).func(func).values[v.0 as int].is_return(),
        decreases e,
    {
        match e {
            PrimaryExp::ExpPrimary { exp } => self.lower_exp(func, exp),
            PrimaryExp::NumberPrimary { num } => self.emit_value(func, ValueKind::Integer(*num)),
        }
    }

    /// Lowers the expression `e` into the current block of `func` and returns
    /// the value that computes it. The operator `+` emits nothing: the value
    /// of its operand is handed on.
    pub fn lower_unary_exp(&mut self, func: FuncRef, e: &UnaryExp) -> (v: ValueRef)
        requires
            old(self).ready(func),
        ensures
            old(self).emitted(
                final(self),
                func,
                unary_values(*e, old(self).func(func).values.len()),
                unary_insts(*e, old(self).func(func).values.len()),
            ),
            final(self).ready(func),
            v.0 == old(self).func(func).values.len() + unary_values(
                *e,
                old(self).func(func).values.len(),
            ).len() - 1,
            !final(self).func(func).values[v.0 as int].is_return(),
        decreases e,
    {
        match e {
            UnaryExp::PrimaryUnary { primary_exp } => self.lower_primary_exp(func, primary_exp),
            UnaryExp::OpUnaryUnary { unary_op, unary_exp } => {
                let ghost base = self.func(func).values.len();
                let ghost bb = self.cur_bb.unwrap().0 as int;
                let operand = self.lower_unary_exp(func, unary_exp);
                let kind = match unary_op {
                    UnaryOp::PLUS => {
                        return operand;
                    },
                    UnaryOp::MINUS => ValueKind::Negate(operand),
                    UnaryOp::BANG => ValueKind::LogicalNot(operand),
                };
                let ghost lowered = *self;
                let v = self.emit_value(func, kind);
                let ghost entered = *self;
                proof {
                    let f = lowered.func(func);
                    assert(f.wf());
                    assert(f.blocks[bb].wf(f.values));
                    lemma_fresh_inst(self.func(func).blocks[bb].insts, v, f.values.len());
                }
                self.push_inst(func, v);
                proof {
                    let inner_values = unary_values(**unary_exp, base);
                    let inner_insts = unary_insts(**unary_exp, base);
                    lemma_emitted_twice(
                        &lowered,
                        &entered,
                        self,
                        func,
                        seq![kind],
                        Seq::empty(),
                        Seq::empty(),
                        seq![v],
                    );
                    assert(seq![kind] + Seq::<ValueKind>::empty() =~= seq![kind]);
                    assert(Seq::<ValueRef>::empty() + seq![v] =~= seq![v]);
                    lemma_emitted_twice(
                        old(self),
                        &lowered,
                        self,
                        func,
                        inner_values,
                        inner_insts,
                        seq![kind],
                        seq![v],
                    );
                    assert(inner_values + seq![kind] =~= inner_values.push(kind));
                    assert(inner_insts + seq![v] =~= inner_insts.push(v));
                    assert(operand == ValueRef((base + inner_values.len() - 1) as usize));
                    assert(v == ValueRef((base + inner_values.len()) as usize));
                }
                v
            },
        }
    }

    /// Lowers the statement `return e;` into the current block of `func`: the
    /// expression, then a `Return` of its value, which closes the block.
    pub fn lower_stmt(&mut self, func: FuncRef, stmt: &Stmt)
        requires
            old(self).ready(func),
        ensures
            old(self).emitted(
                final(self),
                func,
                stmt_values(stmt.exp, old(self).func(func).values.len()),
                stmt_insts(stmt.exp, old(self).func(func).values.len()),
            ),
            final(self).program.wf(),
            final(self).func(func).blocks[old(self).cur_bb.unwrap().0 as int].terminated(
                final(self).func(func).values,
            ),
    {
        let ghost base = self.func(func).values.len();
        let value = self.lower_exp(func, &stmt.exp);
        let ghost lowered = *self;
        self.emit_return_inst(func, value);
        proof {
            let values = exp_values(stmt.exp, base);
            let insts = exp_insts(stmt.exp, base);
            let ret = ValueKind::Return(Some(value));
            let ret_inst = ValueRef(lowered.func(func).values.len() as usize);
            lemma_emitted_twice(
                old(self),
                &lowered,
                self,
                func,
                values,
                insts,
                seq![ret],
                seq![ret_inst],
            );
            assert(values + seq![ret] =~= values.push(ret));
            assert(insts + seq![ret_inst] =~= insts.push(ret_inst));
            assert(value == ValueRef((base + values.len() - 1) as usize));
            assert(ret_inst == ValueRef((base + values.len()) as usize));
        }
    }

    /// Lowers a function body into the current block of `func`.
    pub fn lower_block(&mut self, func: FuncRef, block: &Block)
        requires
            old(self).ready(func),
        ensures
            old(self).emitted(
                final(self),
                func,
                stmt_values(block.stmt.exp, old(self).func(func).values.len()),
                stmt_insts(block.stmt.exp, old(self).func(func).values.len()),
            ),
            final(self).program.wf(),
            final(self).func(func).blocks[old(self).cur_bb.unwrap().0 as int].terminated(
                final(self).func(func).values,
            ),
    {
        self.lower_stmt(func, &block.stmt);
    }

    /// Gives `func` a new block `%entry`, lowers `block` into it, and leaves
    /// no block open.
    pub fn lower_function_body(&mut self, func: FuncRef, block: &Block)
        requires
            old(self).program.wf(),
            func.0 < old(self).program@.len(),
            forall|b: int|
                0 <= b < old(self).func(func).blocks.len() ==> old(self).func(func).blocks[b].name
                    != entry_name(),
        ensures
            final(self).program@ == old(self).program@.update(
                func.0 as int,
                with_body(old(self).func(func), *block),
            ),
            final(self).cur_bb is None,
            final(self).program.wf(),
            final(self).func(func).blocks.last().terminated(final(self).func(func).values),
    {
        proof {
            reveal_strlit("%entry");
            assert("%entry"@ =~= entry_name());
        }
        let ghost before = self.func(func);
        let f = self.program.func_mut(func);
        let entry = f.new_bb(String::from_str("%entry"));
        self.cur_bb = Some(entry);
        proof {
            assert(before.wf());
            assert(self.func(func).wf());
            assert(self.func(func).blocks[entry.0 as int].insts.len() == 0);
        }
        self.lower_block(func, block);
        self.cur_bb = None;
        proof {
            let target = with_body(before, *block);
            let got = self.func(func);
            assert(got.values =~= target.values);
            assert(Seq::<ValueRef>::empty() + stmt_insts(block.stmt.exp, before.values.len())
                =~= stmt_insts(block.stmt.exp, before.values.len()));
            assert(got.blocks =~= target.blocks);
            assert(got.blocks.last() == got.blocks[entry.0 as int]);
            assert(self.program@ =~= old(self).program@.update(func.0 as int, target));
        }
    }

    /// Lowers a function definition: enters the function into the program
    /// under its symbol name and lowers its body into it.
    pub fn lower_func_def(&mut self, func_def: &FuncDef)
        requires
            old(self).program.wf(),
            valid_name(symbol_name(func_def.ident@)),
            forall|f: int|
                0 <= f < old(self).program@.len() ==> old(self).program@[f].name != symbol_name(
                    func_def.ident@,
                ),
        ensures
            final(self).program@ == old(self).program@.push(lowered_function(*func_def)),
            final(self).cur_bb is None,
            final(self).program.wf(),
            lowered_function(*func_def).complete(),
            program_complete(old(self).program@) ==> program_complete(
                final(self).program@,
            ),
    {
        let func_data = self.func_header(func_def);
        let func = self.program.new_func(func_data);
        self.lower_function_body(func, &func_def.block);
        proof {
            let target = lowered_function(*func_def);
            assert(self.program@ =~= old(self).program@.push(target));
            assert(target.blocks.len() == 1);
            assert(target.blocks.last() == target.blocks[0]);
            assert(self.func(func) == target);
            assert forall|b: int| 0 <= b < target.blocks.len() implies (
            #[trigger] target.blocks[b]).terminated(target.values) by {}
        }
    }

    /// Lowers a compilation unit: its one function.
    pub fn build_program_from_comp_unit(&mut self, comp_unit: CompUnit)
        requires
            old(self).program.wf(),
            valid_name(symbol_name(comp_unit.func_def.ident@)),
            forall|f: int|
                0 <= f < old(self).program@.len() ==> old(self).program@[f].name != symbol_name(
                    comp_unit.func_def.ident@,
                ),
        ensures
            final(self).program@ == old(self).program@.push(lowered_function(comp_unit.func_def)),
            final(self).cur_bb is None,
            final(self).program.wf(),
            lowered_function(comp_unit.func_def).complete(),
            program_complete(old(self).program@) ==> program_complete(
                final(self).program@,
            ),
    {
        self.lower_func_def(&comp_unit.func_def);
    }
}

/// A handle that is the length of the table is none of the instructions of
/// a block whose instructions are all in the table.
proof fn lemma_fresh_inst(insts: Seq<ValueRef>, v: ValueRef, len: nat)
    requires
        forall|j: int| 0 <= j < insts.len() ==> (#[trigger] insts[j]).0 < len,
        v.0 == len,
    ensures
        !insts.contains(v),
{
}

/// Emitting twice into one function is emitting once what the two emitted.
proof fn lemma_emitted_twice(
    first: &LowerCtx,
    second: &LowerCtx,
    third: &LowerCtx,
    func: FuncRef,
    values1: Seq<ValueKind>,
    insts1: Seq<ValueRef>,
    values2: Seq<ValueKind>,
    insts2: Seq<ValueRef>,
)
    requires
        func.0 < first.program@.len(),
        first.cur_bb matches Some(bb) && bb.0 < first.func(func).blocks.len(),
        first.emitted(second, func, values1, insts1),
        second.emitted(third, func, values2, insts2),
    ensures
        first.emitted(third, func, values1 + values2, insts1 + insts2),
{
    let bb = first.cur_bb.unwrap().0 as int;
    let f0 = first.func(func);
    let f1 = appended(f0, bb, values1, insts1);
    let f2 = appended(f1, bb, values2, insts2);
    let target = appended(f0, bb, values1 + values2, insts1 + insts2);
    assert(second.func(func) == f1);
    assert(f2.values =~= target.values);
    assert(f1.blocks[bb].insts + insts2 =~= f0.blocks[bb].insts + (insts1 + insts2));
    assert(f2.blocks =~= target.blocks);
    assert(third.program@ =~= first.program@.update(func.0 as int, target));
}

/// Whether `values`, entered into a table that holds `base` values, and
/// `insts` are what an expression may lower to: there is a value; none is a
/// `Return`; each operand is an earlier one of these values; the
/// instructions are among these values and in rising order.
pub open spec fn expression_shaped(values: Seq<ValueKind>, insts: Seq<ValueRef>, base: nat) -> bool {
    &&& values.len() >= 1
    &&& forall|i: int|
        0 <= i < values.len() ==> !(#[trigger] values[i]).is_return() && (
        values[i].operand() matches Some(x) ==> base <= x.0 < base + i)
    &&& forall|j: int| 0 <= j < insts.len() ==> base <= (#[trigger] insts[j]).0 < base + values.len()
    &&& forall|j: int, k: int| 0 <= j < k < insts.len() ==> insts[j].0 < insts[k].0
    &&& forall|j: int| 0 <= j < insts.len() ==> !(values[(#[trigger] insts[j]).0 - base] is Integer)
}

/// What an expression lowers to is shaped as `expression_shaped` says, as
/// long as the table stays within the range of a handle.
pub proof fn lemma_exp_shape(e: Exp, base: nat)
    requires
        base + exp_values(e, base).len() <= usize::MAX,
    ensures
        expression_shaped(exp_values(e, base), exp_insts(e, base), base),
    decreases e,
{
    lemma_unary_shape(*e.unary_exp, base);
}

/// What an expression lowers to is shaped as `expression_shaped` says, as
/// long as the table stays within the range of a handle.
pub proof fn lemma_primary_shape(e: PrimaryExp, base: nat)
    requires
        base + primary_values(e, base).len() <= usize::MAX,
    ensures
        expression_shaped(primary_values(e, base), primary_insts(e, base), base),
    decreases e,
{
    match e {
        PrimaryExp::ExpPrimary { exp } => {
            lemma_exp_shape(*exp, base);
        },
        PrimaryExp::NumberPrimary { num } => {},
    }
}

/// What an expression lowers to is shaped as `expression_shaped` says, as
/// long as the table stays within the range of a handle.
pub proof fn lemma_unary_shape(e: UnaryExp, base: nat)
    requires
        base + unary_values(e, base).len() <= usize::MAX,
    ensures
        expression_shaped(unary_values(e, base), unary_insts(e, base), base),
    decreases e,
{
    match e {
        UnaryExp::PrimaryUnary { primary_exp } => {
            lemma_primary_shape(*primary_exp, base);
        },
        UnaryExp::OpUnaryUnary { unary_op, unary_exp } => {
            lemma_unary_shape(*unary_exp, base);
        },
    }
}

/// Lowering keeps the meaning of an expression: wherever the values that it
/// lowers to stand in a table, the last of them computes the expression's
/// value.
pub proof fn lemma_exp_value(e: Exp, f: FunctionView, base: nat)
    requires
        base + exp_values(e, base).len() <= f.values.len() <= usize::MAX,
        f.values.subrange(base as int, (base + exp_values(e, base).len()) as int) == exp_values(e, base),
    ensures
        exp_values(e, base).len() >= 1,
        f.value_of(base + exp_values(e, base).len() - 1) == e.value(),
    decreases e,
{
    lemma_unary_value(*e.unary_exp, f, base);
}

/// Lowering keeps the meaning of an expression: wherever the values that it
/// lowers to stand in a table, the last of them computes the expression's
/// value.
pub proof fn lemma_primary_value(e: PrimaryExp, f: FunctionView, base: nat)
    requires
        base + primary_values(e, base).len() <= f.values.len() <= usize::MAX,
        f.values.subrange(base as int, (base + primary_values(e, base).len()) as int) == primary_values(
            e,
            base,
        ),
    ensures
        primary_values(e, base).len() >= 1,
        f.value_of(base + primary_values(e, base).len() - 1) == e.value(),
    decreases e,
{
    match e {
        PrimaryExp::ExpPrimary { exp } => {
            lemma_exp_value(*exp, f, base);
        },
        PrimaryExp::NumberPrimary { num } => {
            assert(f.values[base as int] == primary_values(e, base)[0]);
        },
    }
}

/// Lowering keeps the meaning of an expression: wherever the values that it
/// lowers to stand in a table, the last of them computes the expression's
/// value.
pub proof fn lemma_unary_value(e: UnaryExp, f: FunctionView, base: nat)
    requires
        base + unary_values(e, base).len() <= f.values.len() <= usize::MAX,
        f.values.subrange(base as int, (base + unary_values(e, base).len()) as int) == unary_values(e, base),
    ensures
        unary_values(e, base).len() >= 1,
        f.value_of(base + unary_values(e, base).len() - 1) == e.value(),
    decreases e,
{
    match e {
        UnaryExp::PrimaryUnary { primary_exp } => {
            lemma_primary_value(*primary_exp, f, base);
        },
        UnaryExp::OpUnaryUnary { unary_op, unary_exp } => {
            let all = unary_values(e, base);
            let inner = unary_values(*unary_exp, base);
            assert(f.values.subrange(base as int, (base + inner.len()) as int) =~= inner) by {
                assert forall|i: int| 0 <= i < inner.len() implies f.values[base + i] == inner[i] by {
                    assert(f.values.subrange(base as int, (base + all.len()) as int)[i] == all[i]);
                }
            }
            lemma_unary_value(*unary_exp, f, base);
            if unary_op != UnaryOp::PLUS {
                let own = (base + inner.len()) as int;
                assert(f.values[own] == all[inner.len() as int]) by {
                    assert(f.values.subrange(base as int, (base + all.len()) as int)[inner.len() as int]
                        == all[inner.len() as int]);
                }
            }
        },
    }
}

/// The function that a definition is lowered to is well formed and closed,
/// and returns the value of the definition's expression.
pub proof fn lemma_lowered_function(def: FuncDef)
    requires
        valid_name(symbol_name(def.ident@)),
        lowered_function(def).values.len() <= usize::MAX,
    ensures
        lowered_function(def).wf(),
        lowered_function(def).complete(),
        lowered_function(def).instructions_only(),
        lowered_function(def).result() == Some(def.block.stmt.exp.value()),
{
    let f = lowered_function(def);
    let e = def.block.stmt.exp;
    let values = exp_values(e, 0);
    let insts = exp_insts(e, 0);
    let n = values.len() as int;
    assert(f.values =~= stmt_values(e, 0));
    lemma_exp_shape(e, 0);
    assert forall|i: int| 0 <= i < f.values.len() implies (#[trigger] f.values[i]).defined_over(
        f.values.take(i),
    ) by {
        if i < n {
            assert(f.values[i] == values[i]);
            match values[i].operand() {
                Some(x) => {
                    assert(f.values.take(i)[x.0 as int] == values[x.0 as int]);
                },
                None => {},
            }
        } else {
            assert(f.values.take(i)[n - 1] == values[n - 1]);
        }
    }
    let blk = f.blocks[0];
    assert(blk.insts =~= insts.push(ValueRef(n as usize)));
    assert forall|j: int| 0 <= j < blk.insts.len() - 1 implies !f.values[(
    #[trigger] blk.insts[j]).0 as int].is_return() by {
        assert(blk.insts[j] == insts[j]);
        assert(f.values[insts[j].0 as int] == values[insts[j].0 as int]);
    }
    assert forall|j: int, k: int| 0 <= j < k < blk.insts.len() implies blk.insts[j]
        != blk.insts[k] by {
        assert(blk.insts[j] == insts[j]);
        if k < insts.len() {
            assert(blk.insts[k] == insts[k]);
        }
    }
    assert(blk.wf(f.values));
    assert(blk.terminated(f.values));
    assert forall|b: int, j: int|
        0 <= b < f.blocks.len() && 0 <= j < f.blocks[b].insts.len() implies !(f.values[(
    #[trigger] f.blocks[b].insts[j]).0 as int] is Integer) by {
        if j < insts.len() {
            assert(blk.insts[j] == insts[j]);
            assert(f.values[insts[j].0 as int] == values[insts[j].0 - 0]);
        }
    }
    assert(f.values.subrange(0, n) =~= values);
    lemma_exp_value(e, f, 0);
}

/// A closed function has one `Return` in each of its blocks: the block's
/// last instruction.
pub proof fn lemma_one_return(f: FunctionView, b: int, j: int)
    requires
        f.wf(),
        f.complete(),
        0 <= b < f.blocks.len(),
        0 <= j < f.blocks[b].insts.len(),
    ensures
        f.values[f.blocks[b].insts[j].0 as int].is_return() <==> j == f.blocks[b].insts.len() - 1,
{
    assert(f.blocks[b].wf(f.values));
    assert(f.blocks[b].terminated(f.values));
}

/// The function that a definition is lowered to has one block, and in it
/// one `Return`: the block's last instruction.
pub proof fn lemma_lowered_one_return(def: FuncDef, j: int)
    requires
        valid_name(symbol_name(def.ident@)),
        lowered_function(def).values.len() <= usize::MAX,
        0 <= j < lowered_function(def).blocks[0].insts.len(),
    ensures
        lowered_function(def).blocks.len() == 1,
        lowered_function(def).values[lowered_function(def).blocks[0].insts[j].0 as int].is_return()
            <==> j == lowered_function(def).blocks[0].insts.len() - 1,
{
    lemma_lowered_function(def);
    lemma_one_return(lowered_function(def), 0, j);
}

/// The operator `+` leaves no trace in the intermediate representation: an
/// expression under it lowers to the values and instructions that the
/// expression alone lowers to.
pub proof fn lemma_identity_emits_nothing(e: UnaryExp, base: nat)
    ensures
        unary_values(UnaryExp::OpUnaryUnary { unary_op: UnaryOp::PLUS, unary_exp: Box::new(e) }, base)
            == unary_values(e, base),
        unary_insts(UnaryExp::OpUnaryUnary { unary_op: UnaryOp::PLUS, unary_exp: Box::new(e) }, base)
            == unary_insts(e, base),
{
}

} // verus!
