//! The code generator: it walks the functions of a program in the order of
//! their definition, the blocks of each in layout order and the instructions
//! of each block in order, and writes the assembly of each.
//!
//! All values are computed in the register `a0`. The generator remembers which
//! value the register holds, and computes an operand anew where it is not the
//! one held.

use vstd::prelude::*;
use vstd::string::*;
use crate::ir::{eq_zero, lemma_defined, program_complete, program_wf, sub_from_zero, BasicBlockNode, BlockRef, FuncRef, FunctionData, FunctionView, ProgramData, ValueData, ValueKind, ValueRef};
use crate::riscv::{lemma_run_concat, lemma_run_single, run, AsmLine, LineView, Outcome};

verus! {

/// The state of one run of the generator.
pub struct CodeGenCtx<'a> {
    /// The lines written so far. The generator only ever appends.
    pub out: Vec<AsmLine>,
    /// The program that is being compiled.
    pub prog: &'a ProgramData,
    /// The function that is being compiled.
    pub cur_func: Option<FuncRef>,
    /// The value of the current function that `a0` is known to hold.
    pub in_a0: Option<ValueRef>,
}

/// One more than the index of the value's operand; 0 where it has none.
pub open spec fn rank(kind: ValueKind) -> nat {
    match kind.operand() {
        Some(x) => x.0 as nat + 1,
        None => 0,
    }
}

/// The line that carries out a value, once its operand is in `a0`.
pub open spec fn op_line(kind: ValueKind) -> LineView {
    match kind {
        ValueKind::Integer(n) => LineView::LoadImm(n),
        ValueKind::Negate(_) => LineView::SubFromZero,
        ValueKind::LogicalNot(_) => LineView::SetEqZero,
        ValueKind::Return(_) => LineView::Ret,
    }
}

/// The code of one value with `held` known to be in `a0`: the code of its
/// operand from scratch, unless the operand is the value held, then the
/// value's own line.
pub open spec fn value_code(f: FunctionView, held: Option<ValueRef>, kind: ValueKind) -> Seq<LineView>
    decreases rank(kind),
{
    let operand_code = match kind.operand() {
        Some(x) => if held != Some(x) && x.0 < f.values.len() && rank(f.values[x.0 as int])
            <= x.0 {
            value_code(f, None, f.values[x.0 as int])
        } else {
            Seq::empty()
        },
        None => Seq::empty(),
    };
    operand_code.push(op_line(kind))
}

/// The value that `a0` is known to hold after the code of `v`, which is of
/// kind `kind`, where it was known to hold `held` before.
pub open spec fn held_after(held: Option<ValueRef>, v: ValueRef, kind: ValueKind) -> Option<ValueRef> {
    match kind {
        ValueKind::Return(Some(x)) => Some(x),
        ValueKind::Return(None) => held,
        _ => Some(v),
    }
}

/// The value that `a0` is known to hold after the code of the instructions
/// `insts`, run from the start of a block.
pub open spec fn block_held(f: FunctionView, insts: Seq<ValueRef>) -> Option<ValueRef>
    decreases insts.len(),
{
    if insts.len() == 0 {
        None
    } else {
        held_after(
            block_held(f, insts.drop_last()),
            insts.last(),
            f.values[insts.last().0 as int],
        )
    }
}

/// The code of the instructions `insts`, run from the start of a block.
pub open spec fn block_code(f: FunctionView, insts: Seq<ValueRef>) -> Seq<LineView>
    decreases insts.len(),
{
    if insts.len() == 0 {
        Seq::empty()
    } else {
        block_code(f, insts.drop_last()) + value_code(
            f,
            block_held(f, insts.drop_last()),
            f.values[insts.last().0 as int],
        )
    }
}

/// The code of the first `n` blocks of `f`.
pub open spec fn blocks_code(f: FunctionView, n: int) -> Seq<LineView>
    decreases n,
{
    if n <= 0 {
        Seq::empty()
    } else {
        blocks_code(f, n - 1) + block_code(f, f.blocks[n - 1].insts)
    }
}

/// The label of a function: its name without the sigil.
pub open spec fn symbol(name: Seq<char>) -> Seq<char> {
    if name.len() > 0 && (name[0] == '@' || name[0] == '%') {
        name.skip(1)
    } else {
        name
    }
}

/// The code of a function: its label, then its blocks in layout order.
pub open spec fn func_code(f: FunctionView) -> Seq<LineView> {
    seq![LineView::Label(symbol(f.name))] + blocks_code(f, f.blocks.len() as int)
}

/// The code of the first `n` functions of a program.
pub open spec fn funcs_code(funcs: Seq<FunctionView>, n: int) -> Seq<LineView>
    decreases n,
{
    if n <= 0 {
        Seq::empty()
    } else {
        funcs_code(funcs, n - 1) + func_code(funcs[n - 1])
    }
}

/// The value that `a0` is known to hold after the code of `f`, where it was
/// known to hold `held` before: what its last block leaves.
pub open spec fn func_held(f: FunctionView, held: Option<ValueRef>) -> Option<ValueRef> {
    if f.blocks.len() > 0 {
        block_held(f, f.blocks.last().insts)
    } else {
        held
    }
}

/// The value that `a0` is known to hold after the code of the first `n`
/// functions of a program, where it was known to hold `held` before.
pub open spec fn funcs_held(funcs: Seq<FunctionView>, n: int, held: Option<ValueRef>) -> Option<
    ValueRef,
>
    decreases n,
{
    if n <= 0 {
        held
    } else {
        func_held(funcs[n - 1], funcs_held(funcs, n - 1, held))
    }
}

/// The code of a program: the two directives, once, then its functions in the
/// order of their definition.
pub open spec fn program_code(funcs: Seq<FunctionView>) -> Seq<LineView> {
    seq![LineView::Text, LineView::GlobalMain] + funcs_code(funcs, funcs.len() as int)
}

impl<'a> CodeGenCtx<'a> {
    /// A generator at the start of its run on `prog`.
    pub fn new(prog: &'a ProgramData) -> (ctx: CodeGenCtx<'a>)
        ensures
            ctx.out@ == Seq::<AsmLine>::empty(),
            ctx.prog == prog,
            ctx.cur_func == None::<FuncRef>,
            ctx.in_a0 == None::<ValueRef>,
    {
        CodeGenCtx { out: Vec::new(), prog, cur_func: None, in_a0: None }
    }

    /// The lines written so far, as mathematical values.
    pub open spec fn lines(&self) -> Seq<LineView> {
        self.out.deep_view()
    }

    /// Whether a current function is set and is one of the program's.
    pub open spec fn has_func(&self) -> bool {
        match self.cur_func {
            Some(func) => func.0 < self.prog@.len(),
            None => false,
        }
    }

    /// The current function.
    pub open spec fn func(&self) -> FunctionView
        recommends
            self.has_func(),
    {
        self.prog@[self.cur_func.unwrap().0 as int]
    }

    /// Whether `after` continues `self` with the lines `code` appended and
    /// `held` known to be in `a0`, all else unchanged.
    pub open spec fn extended(&self, after: &CodeGenCtx<'a>, code: Seq<LineView>, held: Option<ValueRef>) -> bool {
        &&& after.lines() == self.lines() + code
        &&& after.prog == self.prog
        &&& after.cur_func == self.cur_func
        &&& after.in_a0 == held
    }

    fn emit(&mut self, line: AsmLine)
        ensures
            final(self).lines() == old(self).lines().push(line@),
            final(self).prog == old(self).prog,
            final(self).cur_func == old(self).cur_func,
            final(self).in_a0 == old(self).in_a0,
    {
        self.out.push(line);
        assert(self.lines() =~= old(self).lines().push(line@));
    }
}

/// The function that the generator is at work on.
fn get_func_data<'a, 'b>(ctx: &'b CodeGenCtx<'a>) -> (data: &'a FunctionData)
    requires
        ctx.has_func(),
    ensures
        data@ == ctx.func(),
{
    match ctx.cur_func {
        Some(func) => ctx.prog.func(func),
        None => {
            proof {
                assert(false);
            }
            ctx.prog.func(FuncRef(0))
        },
    }
}

/// The entities of a program that the generator writes assembly for.
pub trait GenerateAsm {
    /// What `generate` asks of the generator's state.
    spec fn can_generate(&self, ctx: &CodeGenCtx<'_>) -> bool;

    /// What `generate` has done when it leaves `after` for `before`.
    spec fn generated(&self, before: &CodeGenCtx<'_>, after: &CodeGenCtx<'_>) -> bool;

    /// Appends the assembly of `self` to the generator's output.
    fn generate(&self, ctx: &mut CodeGenCtx<'_>)
        requires
            self.can_generate(old(ctx)),
        ensures
            self.generated(old(ctx), final(ctx)),
    ;
}

/// Brings the value `x` into `a0`, unless it is known to be there.
fn load_operand(ctx: &mut CodeGenCtx<'_>, x: ValueRef)
    requires
        old(ctx).has_func(),
        old(ctx).func().operands_defined(),
        x.0 < old(ctx).func().values.len(),
    ensures
        old(ctx).extended(
            final(ctx),
            if old(ctx).in_a0 != Some(x) {
                value_code(old(ctx).func(), None, old(ctx).func().values[x.0 as int])
            } else {
                Seq::empty()
            },
            Some(x),
        ),
    decreases x.0 + 1, 0nat,
{
    let known = match ctx.in_a0 {
        Some(held) => held.0 == x.0,
        None => false,
    };
    if !known {
        proof {
            lemma_defined(ctx.func(), x.0 as int);
        }
        ctx.in_a0 = None;
        let data = get_func_data(ctx).value(x);
        generate_value(data.kind(), ctx);
        ctx.in_a0 = Some(x);
    } else {
        assert(ctx.lines() =~= old(ctx).lines() + Seq::empty());
    }
}

/// Appends the code of a value of kind `kind`.
fn generate_value(kind: ValueKind, ctx: &mut CodeGenCtx<'_>)
    requires
        old(ctx).has_func(),
        old(ctx).func().operands_defined(),
        kind.defined_over(old(ctx).func().values),
    ensures
        old(ctx).extended(
            final(ctx),
            value_code(old(ctx).func(), old(ctx).in_a0, kind),
            match kind {
                ValueKind::Return(Some(x)) => Some(x),
                ValueKind::Return(None) => old(ctx).in_a0,
                _ => None,
            },
        ),
    decreases rank(kind), 1nat,
{
    match kind {
        ValueKind::Integer(n) => {
            ctx.emit(AsmLine::LoadImm(n));
            ctx.in_a0 = None;
        },
        ValueKind::Negate(x) => {
            load_operand(ctx, x);
            ctx.emit(AsmLine::SubFromZero);
            ctx.in_a0 = None;
        },
        ValueKind::LogicalNot(x) => {
            load_operand(ctx, x);
            ctx.emit(AsmLine::SetEqZero);
            ctx.in_a0 = None;
        },
        ValueKind::Return(r) => {
            match r {
                Some(x) => {
                    load_operand(ctx, x);
                },
                None => {},
            }
            ctx.emit(AsmLine::Ret);
        },
    }
    proof {
        let f = old(ctx).func();
        match kind.operand() {
            Some(x) => {
                lemma_defined(f, x.0 as int);
            },
            None => {},
        }
        assert(ctx.lines() =~= old(ctx).lines() + value_code(f, old(ctx).in_a0, kind));
    }
}

impl GenerateAsm for ValueData {
    /// A current function is set, its table has no forward references, and
    /// the value's operand is in it.
    open spec fn can_generate(&self, ctx: &CodeGenCtx<'_>) -> bool {
        &&& ctx.has_func()
        &&& ctx.func().operands_defined()
        &&& self@.defined_over(ctx.func().values)
    }

    /// The value's code stands at the end of the output. After a `Return` the
    /// register is known to hold what it held at the `ret`; after any other
    /// value it holds that value, whose handle is not known here.
    open spec fn generated(&self, before: &CodeGenCtx<'_>, after: &CodeGenCtx<'_>) -> bool {
        &&& after.lines() == before.lines() + value_code(before.func(), before.in_a0, self@)
        &&& after.prog == before.prog
        &&& after.cur_func == before.cur_func
        &&& after.in_a0 == match self@ {
            ValueKind::Return(Some(x)) => Some(x),
            ValueKind::Return(None) => before.in_a0,
            _ => None,
        }
    }

    fn generate(&self, ctx: &mut CodeGenCtx<'_>) {
        generate_value(self.kind(), ctx);
    }
}

impl GenerateAsm for BasicBlockNode {
    /// A current function is set, its table has no forward references, and
    /// the block's instructions are in it.
    open spec fn can_generate(&self, ctx: &CodeGenCtx<'_>) -> bool {
        &&& ctx.has_func()
        &&& ctx.func().operands_defined()
        &&& forall|j: int|
            0 <= j < self@.insts.len() ==> (#[trigger] self@.insts[j]).0 < ctx.func().values.len()
    }

    /// The block's code stands at the end of the output.
    open spec fn generated(&self, before: &CodeGenCtx<'_>, after: &CodeGenCtx<'_>) -> bool {
        &&& after.lines() == before.lines() + block_code(before.func(), self@.insts)
        &&& after.prog == before.prog
        &&& after.cur_func == before.cur_func
        &&& after.in_a0 == block_held(before.func(), self@.insts)
    }

    fn generate(&self, ctx: &mut CodeGenCtx<'_>) {
        let insts = self.insts();
        ctx.in_a0 = None;
        let mut j: usize = 0;
        assert(ctx.lines() =~= old(ctx).lines() + block_code(old(ctx).func(), insts@.take(0)));
        while j < insts.len()
            invariant
                j <= insts.len(),
                insts@ == self@.insts,
                self.can_generate(old(ctx)),
                ctx.prog == old(ctx).prog,
                ctx.cur_func == old(ctx).cur_func,
                ctx.lines() == old(ctx).lines() + block_code(old(ctx).func(), insts@.take(j as int)),
                ctx.in_a0 == block_held(old(ctx).func(), insts@.take(j as int)),
            decreases insts.len() - j,
        {
            let val = insts[j];
            let ghost f = ctx.func();
            let ghost before = ctx.lines();
            proof {
                lemma_defined(f, val.0 as int);
            }
            let val_data = get_func_data(ctx).value(val);
            val_data.generate(ctx);
            match val_data.kind() {
                ValueKind::Return(_) => {},
                _ => {
                    ctx.in_a0 = Some(val);
                },
            }
            proof {
                let done = insts@.take(j + 1);
                assert(done.drop_last() =~= insts@.take(j as int));
                assert(done.last() == val);
                assert(ctx.lines() =~= old(ctx).lines() + block_code(f, done));
            }
            j += 1;
        }
        assert(insts@.take(j as int) =~= insts@);
    }
}

impl GenerateAsm for FunctionData {
    /// The function is the generator's current function and is well formed.
    open spec fn can_generate(&self, ctx: &CodeGenCtx<'_>) -> bool {
        &&& ctx.has_func()
        &&& ctx.func() == self@
        &&& self@.wf()
    }

    /// The function's code stands at the end of the output.
    open spec fn generated(&self, before: &CodeGenCtx<'_>, after: &CodeGenCtx<'_>) -> bool {
        &&& after.lines() == before.lines() + func_code(self@)
        &&& after.prog == before.prog
        &&& after.cur_func == before.cur_func
        &&& after.in_a0 == func_held(self@, before.in_a0)
    }

    fn generate(&self, ctx: &mut CodeGenCtx<'_>) {
        let raw = self.name();
        let name = if raw.unicode_len() > 0 && (raw.get_char(0) == '@' || raw.get_char(0) == '%') {
            raw.substring_char(1, raw.unicode_len())
        } else {
            raw
        };
        assert(name@ =~= symbol(self@.name));
        ctx.emit(AsmLine::Label(String::from_str(name)));
        let mut b: usize = 0;
        assert(ctx.lines() =~= old(ctx).lines() + (seq![LineView::Label(symbol(self@.name))]
            + blocks_code(self@, 0)));
        while b < self.bb_count()
            invariant
                b <= self@.blocks.len(),
                self.can_generate(old(ctx)),
                ctx.prog == old(ctx).prog,
                ctx.cur_func == old(ctx).cur_func,
                ctx.lines() == old(ctx).lines() + (seq![LineView::Label(symbol(self@.name))]
                    + blocks_code(self@, b as int)),
                ctx.in_a0 == if b > 0 {
                    block_held(self@, self@.blocks[b - 1].insts)
                } else {
                    old(ctx).in_a0
                },
            decreases self@.blocks.len() - b,
        {
            let bb_node = self.bb(BlockRef(b));
            assert(self@.blocks[b as int].wf(self@.values));
            let ghost before = ctx.lines();
            bb_node.generate(ctx);
            assert(ctx.lines() =~= old(ctx).lines() + (seq![LineView::Label(symbol(self@.name))]
                + blocks_code(self@, b + 1)));
            b += 1;
        }
    }
}

impl GenerateAsm for ProgramData {
    /// The program is the one that the generator was made for, and is well
    /// formed.
    open spec fn can_generate(&self, ctx: &CodeGenCtx<'_>) -> bool {
        &&& ctx.prog@ == self@
        &&& self.wf()
    }

    /// The program's code stands at the end of the output, and the last of
    /// its functions, if it has any, is the current one.
    open spec fn generated(&self, before: &CodeGenCtx<'_>, after: &CodeGenCtx<'_>) -> bool {
        &&& after.lines() == before.lines() + program_code(self@)
        &&& after.prog == before.prog
        &&& after.cur_func == if self@.len() > 0 {
            Some(FuncRef((self@.len() - 1) as usize))
        } else {
            before.cur_func
        }
        &&& after.in_a0 == funcs_held(self@, self@.len() as int, before.in_a0)
    }

    fn generate(&self, ctx: &mut CodeGenCtx<'_>) {
        ctx.emit(AsmLine::Text);
        ctx.emit(AsmLine::GlobalMain);
        let mut i: usize = 0;
        assert(ctx.lines() =~= old(ctx).lines() + (seq![LineView::Text, LineView::GlobalMain]
            + funcs_code(self@, 0)));
        while i < self.func_count()
            invariant
                i <= self@.len(),
                self.can_generate(old(ctx)),
                ctx.prog == old(ctx).prog,
                ctx.lines() == old(ctx).lines() + (seq![LineView::Text, LineView::GlobalMain]
                    + funcs_code(self@, i as int)),
                ctx.cur_func == if i > 0 {
                    Some(FuncRef((i - 1) as usize))
                } else {
                    old(ctx).cur_func
                },
                ctx.in_a0 == funcs_held(self@, i as int, old(ctx).in_a0),
            decreases self@.len() - i,
        {
            let func = FuncRef(i);
            ctx.cur_func = Some(func);
            assert(self@[i as int].wf());
            self.func(func).generate(ctx);
            assert(ctx.lines() =~= old(ctx).lines() + (seq![LineView::Text, LineView::GlobalMain]
                + funcs_code(self@, i + 1)));
            i += 1;
        }
    }
}

/// The integer that a value of kind `kind` computes in `f`, given what its
/// operand computes. A `Return` computes none and counts as 0.
pub open spec fn kind_value(f: FunctionView, kind: ValueKind) -> i32 {
    match kind {
        ValueKind::Integer(n) => n,
        ValueKind::Negate(x) => sub_from_zero(f.value_of(x.0 as int)),
        ValueKind::LogicalNot(x) => eq_zero(f.value_of(x.0 as int)),
        ValueKind::Return(_) => 0,
    }
}

/// What the code of a value of kind `kind` does to a run: a `Return` ends it
/// with its operand's value, or with what `a0` held where it has none; any
/// other value leaves its own value in `a0`.
pub open spec fn kind_outcome(f: FunctionView, kind: ValueKind, a0: i32) -> Outcome {
    match kind {
        ValueKind::Return(Some(x)) => Outcome::Returned(f.value_of(x.0 as int)),
        ValueKind::Return(None) => Outcome::Returned(a0),
        _ => Outcome::Running(kind_value(f, kind)),
    }
}

/// Whether `a0` is what the generator takes it to be: the value of `held`,
/// where it knows of one.
pub open spec fn holds(f: FunctionView, held: Option<ValueRef>, a0: i32) -> bool {
    match held {
        Some(h) => h.0 < f.values.len() && a0 == f.value_of(h.0 as int),
        None => true,
    }
}

/// In a table without forward references, the value of an entry is what its
/// kind computes.
pub proof fn lemma_value_of(f: FunctionView, i: int)
    requires
        f.operands_defined(),
        0 <= i < f.values.len(),
    ensures
        f.value_of(i) == kind_value(f, f.values[i]),
{
    lemma_defined(f, i);
}

/// The code of a value does what the value means: run with the register as
/// the generator takes it to be, it leaves the value in `a0`, or returns the
/// operand where the value is a `Return`.
pub proof fn lemma_value_code_runs(f: FunctionView, held: Option<ValueRef>, kind: ValueKind, a0: i32)
    requires
        f.operands_defined(),
        kind.defined_over(f.values),
        holds(f, held, a0),
    ensures
        run(value_code(f, held, kind), a0) == kind_outcome(f, kind, a0),
    decreases rank(kind),
{
    let last = seq![op_line(kind)];
    match kind.operand() {
        Some(x) => {
            lemma_defined(f, x.0 as int);
            lemma_value_of(f, x.0 as int);
            let inner = f.values[x.0 as int];
            let operand_code = if held != Some(x) {
                value_code(f, None, inner)
            } else {
                Seq::empty()
            };
            assert(value_code(f, held, kind) =~= operand_code + last);
            if held != Some(x) {
                lemma_value_code_runs(f, None, inner, a0);
            }
            assert(run(operand_code, a0) == Outcome::Running(f.value_of(x.0 as int)));
            lemma_run_concat(operand_code, last, a0);
            lemma_run_single(op_line(kind), f.value_of(x.0 as int));
        },
        None => {
            assert(value_code(f, held, kind) =~= last);
            lemma_run_single(op_line(kind), a0);
        },
    }
}

/// The instructions of a block before its terminator run through, and leave
/// in `a0` what the generator takes it to hold.
pub proof fn lemma_block_prefix_runs(f: FunctionView, insts: Seq<ValueRef>, a0: i32)
    requires
        f.operands_defined(),
        forall|j: int| 0 <= j < insts.len() ==> (#[trigger] insts[j]).0 < f.values.len(),
        forall|j: int| 0 <= j < insts.len() ==> !f.values[(#[trigger] insts[j]).0 as int].is_return(),
    ensures
        run(block_code(f, insts), a0) is Running,
        holds(f, block_held(f, insts), run(block_code(f, insts), a0)->Running_0),
    decreases insts.len(),
{
    if insts.len() > 0 {
        let init = insts.drop_last();
        let v = insts.last();
        let kind = f.values[v.0 as int];
        lemma_block_prefix_runs(f, init, a0);
        let mid = run(block_code(f, init), a0)->Running_0;
        lemma_defined(f, v.0 as int);
        lemma_value_of(f, v.0 as int);
        lemma_value_code_runs(f, block_held(f, init), kind, mid);
        lemma_run_concat(
            block_code(f, init),
            value_code(f, block_held(f, init), kind),
            a0,
        );
    }
}

/// The code of a terminated block returns what the block hands back, whatever
/// `a0` held at its start.
pub proof fn lemma_block_returns(f: FunctionView, b: int, a0: i32)
    requires
        f.wf(),
        0 <= b < f.blocks.len(),
        f.blocks[b].terminated(f.values),
    ensures
        run(block_code(f, f.blocks[b].insts), a0) is Returned,
        f.block_result(b) matches Some(r) ==> run(block_code(f, f.blocks[b].insts), a0)
            == Outcome::Returned(r),
{
    let blk = f.blocks[b];
    assert(blk.wf(f.values));
    let init = blk.insts.drop_last();
    let v = blk.insts.last();
    let kind = f.values[v.0 as int];
    assert forall|j: int| 0 <= j < init.len() implies !f.values[(#[trigger] init[j]).0 as int].is_return() by {
        assert(init[j] == blk.insts[j]);
    }
    assert forall|j: int| 0 <= j < init.len() implies (#[trigger] init[j]).0 < f.values.len() by {
        assert(init[j] == blk.insts[j]);
    }
    lemma_block_prefix_runs(f, init, a0);
    let mid = run(block_code(f, init), a0)->Running_0;
    lemma_defined(f, v.0 as int);
    lemma_value_code_runs(f, block_held(f, init), kind, mid);
    lemma_run_concat(
        block_code(f, init),
        value_code(f, block_held(f, init), kind),
        a0,
    );
}

/// The code of the first blocks of a function starts with the code of its
/// entry block.
proof fn lemma_blocks_code_starts(f: FunctionView, n: int)
    requires
        1 <= n,
    ensures
        exists|rest: Seq<LineView>| blocks_code(f, n) == block_code(f, f.blocks[0].insts) + rest,
    decreases n,
{
    let entry = block_code(f, f.blocks[0].insts);
    if n == 1 {
        assert(blocks_code(f, 0) =~= Seq::empty());
        assert(blocks_code(f, 1) =~= entry + Seq::empty());
    } else {
        lemma_blocks_code_starts(f, n - 1);
        let rest = choose|rest: Seq<LineView>| blocks_code(f, n - 1) == entry + rest;
        let more = block_code(f, f.blocks[n - 1].insts);
        assert(blocks_code(f, n) =~= entry + (rest + more));
    }
}

/// A call of a closed function: its code, run from its label with anything in
/// `a0` and anything after it, returns, and returns the function's result
/// where it has one.
pub proof fn lemma_function_returns(f: FunctionView, after: Seq<LineView>, a0: i32)
    requires
        f.wf(),
        f.complete(),
    ensures
        run(func_code(f) + after, a0) is Returned,
        f.result() matches Some(r) ==> run(func_code(f) + after, a0) == Outcome::Returned(r),
{
    let n = f.blocks.len() as int;
    let entry = block_code(f, f.blocks[0].insts);
    lemma_blocks_code_starts(f, n);
    let rest = choose|rest: Seq<LineView>| blocks_code(f, n) == entry + rest;
    let label = seq![LineView::Label(symbol(f.name))];
    let code = func_code(f) + after;
    assert(code[0] == label[0]);
    assert(code.drop_first() =~= entry + (rest + after));
    assert(f.blocks[0].terminated(f.values));
    lemma_block_returns(f, 0, a0);
    lemma_run_concat(entry, rest + after, a0);
}

/// The line of a program's code at which its function `i` starts.
pub open spec fn func_offset(funcs: Seq<FunctionView>, i: int) -> int {
    2 + funcs_code(funcs, i).len() as int
}

/// The code of a program from the start of function `i` on is that function's
/// code and then the code of those after it.
proof fn lemma_funcs_code_splits(funcs: Seq<FunctionView>, i: int, n: int)
    requires
        0 <= i < n,
    ensures
        exists|rest: Seq<LineView>|
            funcs_code(funcs, n) == funcs_code(funcs, i) + (func_code(funcs[i]) + rest),
    decreases n,
{
    let before = funcs_code(funcs, i);
    let own = func_code(funcs[i]);
    if n == i + 1 {
        assert(funcs_code(funcs, n) =~= before + (own + Seq::empty()));
    } else {
        lemma_funcs_code_splits(funcs, i, n - 1);
        let rest = choose|rest: Seq<LineView>| funcs_code(funcs, n - 1) == before + (own + rest);
        let more = func_code(funcs[n - 1]);
        assert(funcs_code(funcs, n) =~= before + (own + (rest + more)));
    }
}

/// In the code of a well-formed program whose functions are closed, each
/// function's label stands at its offset, and the code run from there returns
/// the function's result, whatever `a0` held.
pub proof fn lemma_program_function_returns(funcs: Seq<FunctionView>, i: int, a0: i32)
    requires
        program_wf(funcs),
        program_complete(funcs),
        0 <= i < funcs.len(),
    ensures
        0 <= func_offset(funcs, i) < program_code(funcs).len(),
        program_code(funcs)[func_offset(funcs, i)] == LineView::Label(symbol(funcs[i].name)),
        run(program_code(funcs).skip(func_offset(funcs, i)), a0) is Returned,
        funcs[i].result() matches Some(r) ==> run(
            program_code(funcs).skip(func_offset(funcs, i)),
            a0,
        ) == Outcome::Returned(r),
{
    let n = funcs.len() as int;
    let before = funcs_code(funcs, i);
    let own = func_code(funcs[i]);
    lemma_funcs_code_splits(funcs, i, n);
    let rest = choose|rest: Seq<LineView>| funcs_code(funcs, n) == before + (own + rest);
    let head = seq![LineView::Text, LineView::GlobalMain];
    let code = program_code(funcs);
    assert(code =~= (head + before) + (own + rest));
    assert(code.skip(func_offset(funcs, i)) =~= own + rest);
    assert(code[func_offset(funcs, i)] == own[0]);
    assert(funcs[i].wf());
    assert(funcs[i].complete());
    lemma_function_returns(funcs[i], rest, a0);
}

/// Run from its first line, the code of a program returns the result of its
/// first function: the two directives and the label do nothing.
pub proof fn lemma_program_returns(funcs: Seq<FunctionView>, a0: i32)
    requires
        program_wf(funcs),
        program_complete(funcs),
        funcs.len() > 0,
    ensures
        run(program_code(funcs), a0) is Returned,
        funcs[0].result() matches Some(r) ==> run(program_code(funcs), a0) == Outcome::Returned(r),
{
    lemma_program_function_returns(funcs, 0, a0);
    let code = program_code(funcs);
    reveal_with_fuel(run, 3);
    assert(funcs_code(funcs, 0) =~= Seq::empty());
    assert(func_offset(funcs, 0) == 2);
    assert(code.drop_first().drop_first() =~= code.skip(2));
    assert(code[0] == LineView::Text);
    assert(code[1] == LineView::GlobalMain);
    assert(code.drop_first()[0] == code[1]);
}

} // verus!
