//! The intermediate representation: a program of functions, each a table of
//! values and a layout of basic blocks that list instructions by handle.
//!
//! A handle is an index into the table that owns the entity. An operand always
//! names an earlier entry of the same function's table, so the value of every
//! entry is defined by recursion on its index.

use vstd::prelude::*;

verus! {

/// The type of an IR function's result.
#[derive(Debug, Clone, Copy, PartialEq, Eq)]
pub enum Type {
    Int32,
    Unit,
}

/// The handle of a function: its place in the program's definition order.
#[derive(Debug, Clone, Copy, PartialEq, Eq, Hash, Structural)]
pub struct FuncRef(pub usize);

/// The handle of a basic block: its place in its function's layout.
#[derive(Debug, Clone, Copy, PartialEq, Eq, Hash, Structural)]
pub struct BlockRef(pub usize);

/// The handle of a value: its place in its function's value table.
#[derive(Debug, Clone, Copy, PartialEq, Eq, Hash, Structural)]
pub struct ValueRef(pub usize);

/// What a value is and which values it uses.
#[derive(Debug, Clone, Copy, PartialEq, Eq)]
pub enum ValueKind {
    /// An integer constant.
    Integer(i32),
    /// Zero minus the operand, in two's complement.
    Negate(ValueRef),
    /// 1 if the operand is zero, else 0.
    LogicalNot(ValueRef),
    /// Leaves the function, with the operand as its result if there is one.
    Return(Option<ValueRef>),
}

impl ValueKind {
    /// The value that this one uses, if any.
    pub open spec fn operand(self) -> Option<ValueRef> {
        match self {
            ValueKind::Integer(_) => None,
            ValueKind::Negate(x) => Some(x),
            ValueKind::LogicalNot(x) => Some(x),
            ValueKind::Return(r) => r,
        }
    }

    /// Whether this is the terminator of a block.
    pub open spec fn is_return(self) -> bool {
        self is Return
    }

    /// Whether the value may be entered into a table of `values`: its operand,
    /// if any, is in the table and computes an integer.
    pub open spec fn defined_over(self, values: Seq<ValueKind>) -> bool {
        match self.operand() {
            Some(x) => x.0 < values.len() && !values[x.0 as int].is_return(),
            None => true,
        }
    }
}

/// Zero minus `x` in 32-bit two's complement.
pub open spec fn sub_from_zero(x: i32) -> i32 {
    if x == i32::MIN {
        x
    } else {
        (0 - x) as i32
    }
}

/// The comparison of `x` with zero: 1 if equal, else 0.
pub open spec fn eq_zero(x: i32) -> i32 {
    if x == 0 {
        1i32
    } else {
        0i32
    }
}

/// Whether `s` can name a function or a block: a sigil `@` or `%` and at
/// least one character more.
pub open spec fn valid_name(s: Seq<char>) -> bool {
    s.len() > 1 && (s[0] == '@' || s[0] == '%')
}

/// A basic block as a mathematical value.
pub struct BlockView {
    pub name: Seq<char>,
    pub insts: Seq<ValueRef>,
}

impl BlockView {
    /// Every instruction is in the table `values`, no instruction is listed
    /// twice, and a `Return` stands nowhere but at the end.
    pub open spec fn wf(self, values: Seq<ValueKind>) -> bool {
        &&& valid_name(self.name)
        &&& forall|j: int| 0 <= j < self.insts.len() ==> (#[trigger] self.insts[j]).0 < values.len()
        &&& forall|j: int, k: int|
            0 <= j < k < self.insts.len() ==> self.insts[j] != self.insts[k]
        &&& forall|j: int|
            0 <= j < self.insts.len() - 1 ==> !values[(#[trigger] self.insts[j]).0 as int].is_return()
    }

    /// Whether the block ends in a `Return`.
    pub open spec fn terminated(self, values: Seq<ValueKind>) -> bool {
        self.insts.len() > 0 && values[self.insts.last().0 as int].is_return()
    }
}

/// A function as a mathematical value.
pub struct FunctionView {
    pub name: Seq<char>,
    pub ret_type: Type,
    pub values: Seq<ValueKind>,
    pub blocks: Seq<BlockView>,
}

impl FunctionView {
    /// Every operand names an earlier entry of the table that is no `Return`.
    pub open spec fn operands_defined(self) -> bool {
        forall|i: int|
            0 <= i < self.values.len() ==> (#[trigger] self.values[i]).defined_over(
                self.values.take(i),
            )
    }

    /// The function's invariant: a valid name, no forward reference in the
    /// table, well-formed blocks, and no two blocks of one name.
    pub open spec fn wf(self) -> bool {
        &&& valid_name(self.name)
        &&& self.operands_defined()
        &&& forall|b: int| 0 <= b < self.blocks.len() ==> (#[trigger] self.blocks[b]).wf(self.values)
        &&& forall|a: int, b: int|
            0 <= a < b < self.blocks.len() ==> self.blocks[a].name != self.blocks[b].name
    }

    /// Whether the function is closed: it has a block, and every block ends
    /// in a `Return`.
    pub open spec fn complete(self) -> bool {
        &&& self.blocks.len() > 0
        &&& forall|b: int|
            0 <= b < self.blocks.len() ==> (#[trigger] self.blocks[b]).terminated(self.values)
    }

    /// Whether the blocks list instructions only: no constant stands in a
    /// block.
    pub open spec fn instructions_only(self) -> bool {
        forall|b: int, j: int|
            0 <= b < self.blocks.len() && 0 <= j < self.blocks[b].insts.len() ==> !(self.values[(
            #[trigger] self.blocks[b].insts[j]).0 as int] is Integer)
    }

    /// The integer that entry `v` of the table computes. A `Return` computes
    /// none and counts as 0.
    pub open spec fn value_of(self, v: int) -> i32
        decreases v,
    {
        if 0 <= v < self.values.len() {
            match self.values[v] {
                ValueKind::Integer(n) => n,
                ValueKind::Negate(x) => if x.0 < v {
                    sub_from_zero(self.value_of(x.0 as int))
                } else {
                    0
                },
                ValueKind::LogicalNot(x) => if x.0 < v {
                    eq_zero(self.value_of(x.0 as int))
                } else {
                    0
                },
                ValueKind::Return(_) => 0,
            }
        } else {
            0
        }
    }

    /// What block `b` hands back when control reaches its end: the value of its
    /// terminator's operand, or nothing where the terminator has none.
    pub open spec fn block_result(self, b: int) -> Option<i32>
        recommends
            0 <= b < self.blocks.len(),
            self.blocks[b].terminated(self.values),
    {
        match self.values[self.blocks[b].insts.last().0 as int] {
            ValueKind::Return(Some(x)) => Some(self.value_of(x.0 as int)),
            _ => None,
        }
    }

    /// What a call of the function returns: the result of its entry block.
    pub open spec fn result(self) -> Option<i32>
        recommends
            self.complete(),
    {
        self.block_result(0)
    }
}

/// In a table without forward references, the operand of entry `i` is an
/// earlier entry of the table, and no `Return`.
pub proof fn lemma_defined(f: FunctionView, i: int)
    requires
        f.operands_defined(),
        0 <= i < f.values.len(),
    ensures
        f.values[i].defined_over(f.values),
        f.values[i].operand() matches Some(x) ==> x.0 < i,
{
    assert(f.values[i].defined_over(f.values.take(i)));
}

/// The invariant of a program: well-formed functions, no two of one name.
pub open spec fn program_wf(funcs: Seq<FunctionView>) -> bool {
    &&& forall|f: int| 0 <= f < funcs.len() ==> (#[trigger] funcs[f]).wf()
    &&& forall|f: int, g: int| 0 <= f < g < funcs.len() ==> funcs[f].name != funcs[g].name
}

/// Whether every function of the program is closed.
pub open spec fn program_complete(funcs: Seq<FunctionView>) -> bool {
    forall|f: int| 0 <= f < funcs.len() ==> (#[trigger] funcs[f]).complete()
}

/// An entry of a function's value table.
#[derive(Debug, Clone, Copy, PartialEq, Eq)]
pub struct ValueData {
    kind: ValueKind,
}

impl ValueData {
    pub closed spec fn view(&self) -> ValueKind {
        self.kind
    }

    /// What the value is.
    pub fn kind(&self) -> (k: ValueKind)
        ensures
            k == self@,
    {
        self.kind
    }
}

/// A basic block in a function's layout: its name and its instructions in
/// order.
#[derive(Debug)]
pub struct BasicBlockNode {
    name: String,
    insts: Vec<ValueRef>,
}

impl BasicBlockNode {
    pub closed spec fn view(&self) -> BlockView {
        BlockView { name: self.name@, insts: self.insts@ }
    }

    /// The block's name.
    pub fn name(&self) -> (s: &str)
        ensures
            s@ == self@.name,
    {
        self.name.as_str()
    }

    /// The block's instructions in order.
    pub fn insts(&self) -> (v: &Vec<ValueRef>)
        ensures
            v@ == self@.insts,
    {
        &self.insts
    }
}

/// A function: its name, its result type, its value table and its layout.
#[derive(Debug)]
pub struct FunctionData {
    name: String,
    ret_type: Type,
    values: Vec<ValueData>,
    layout: Vec<BasicBlockNode>,
}

impl FunctionData {
    pub closed spec fn view(&self) -> FunctionView {
        FunctionView {
            name: self.name@,
            ret_type: self.ret_type,
            values: Seq::new(self.values@.len(), |i: int| self.values@[i]@),
            blocks: Seq::new(self.layout@.len(), |b: int| self.layout@[b]@),
        }
    }

    /// A value table is never longer than a handle can count.
    pub proof fn lemma_table_fits(&self)
        ensures
            self@.values.len() <= usize::MAX,
    {
        assert(self.values.len() == self.values@.len());
    }

    /// A function without values or blocks.
    pub fn new(name: String, ret_type: Type) -> (f: FunctionData)
        requires
            valid_name(name@),
        ensures
            f@ == (FunctionView {
                name: name@,
                ret_type,
                values: Seq::empty(),
                blocks: Seq::empty(),
            }),
            f@.wf(),
    {
        let f = FunctionData { name, ret_type, values: Vec::new(), layout: Vec::new() };
        assert(f@.values =~= Seq::empty());
        assert(f@.blocks =~= Seq::empty());
        f
    }

    /// The function's name, sigil included.
    pub fn name(&self) -> (s: &str)
        ensures
            s@ == self@.name,
    {
        self.name.as_str()
    }

    /// The type of the function's result.
    pub fn ret_type(&self) -> (t: Type)
        ensures
            t == self@.ret_type,
    {
        self.ret_type
    }

    /// The number of entries in the value table.
    pub fn value_count(&self) -> (n: usize)
        ensures
            n == self@.values.len(),
    {
        self.values.len()
    }

    /// The entry of the value table that `v` names.
    pub fn value(&self, v: ValueRef) -> (d: &ValueData)
        requires
            v.0 < self@.values.len(),
        ensures
            d@ == self@.values[v.0 as int],
    {
        &self.values[v.0]
    }

    /// The number of blocks in the layout.
    pub fn bb_count(&self) -> (n: usize)
        ensures
            n == self@.blocks.len(),
    {
        self.layout.len()
    }

    /// The block of the layout that `bb` names.
    pub fn bb(&self, bb: BlockRef) -> (node: &BasicBlockNode)
        requires
            bb.0 < self@.blocks.len(),
        ensures
            node@ == self@.blocks[bb.0 as int],
    {
        &self.layout[bb.0]
    }

    /// Enters a value at the end of the table and returns its handle. The
    /// layout is untouched: the value is no instruction until it is pushed
    /// into a block.
    pub fn new_value(&mut self, kind: ValueKind) -> (v: ValueRef)
        requires
            kind.defined_over(old(self)@.values),
        ensures
            v.0 == old(self)@.values.len(),
            final(self)@ == (FunctionView {
                values: old(self)@.values.push(kind),
                ..old(self)@
            }),
            old(self)@.wf() ==> final(self)@.wf(),
    {
        let v = ValueRef(self.values.len());
        self.values.push(ValueData { kind });
        proof {
            let before = old(self)@;
            let after = self@;
            assert(after.values =~= before.values.push(kind));
            assert(after.blocks =~= before.blocks);
            if before.wf() {
                assert forall|i: int| 0 <= i < after.values.len() implies (
                #[trigger] after.values[i]).defined_over(after.values.take(i)) by {
                    if i < before.values.len() {
                        assert(before.values[i].defined_over(before.values.take(i)));
                        assert(after.values.take(i) =~= before.values.take(i));
                    } else {
                        assert(after.values.take(i) =~= before.values);
                    }
                }
                assert forall|b: int| 0 <= b < after.blocks.len() implies (
                #[trigger] after.blocks[b]).wf(after.values) by {
                    assert(before.blocks[b].wf(before.values));
                }
            }
        }
        v
    }

    /// Appends an empty block named `name` to the layout and returns its
    /// handle.
    pub fn new_bb(&mut self, name: String) -> (bb: BlockRef)
        requires
            valid_name(name@),
            forall|b: int| 0 <= b < old(self)@.blocks.len() ==> old(self)@.blocks[b].name != name@,
        ensures
            bb.0 == old(self)@.blocks.len(),
            final(self)@ == (FunctionView {
                blocks: old(self)@.blocks.push(BlockView { name: name@, insts: Seq::empty() }),
                ..old(self)@
            }),
            old(self)@.wf() ==> final(self)@.wf(),
    {
        let bb = BlockRef(self.layout.len());
        self.layout.push(BasicBlockNode { name, insts: Vec::new() });
        proof {
            let before = old(self)@;
            let after = self@;
            assert(after.values =~= before.values);
            assert(after.blocks =~= before.blocks.push(
                BlockView { name: name@, insts: Seq::empty() },
            ));
            if before.wf() {
                assert forall|b: int| 0 <= b < after.blocks.len() implies (
                #[trigger] after.blocks[b]).wf(after.values) by {
                    if b < before.blocks.len() {
                        assert(before.blocks[b].wf(before.values));
                    }
                }
            }
        }
        bb
    }

    /// Appends the value `inst` to block `bb` as its next instruction.
    pub fn push_inst(&mut self, bb: BlockRef, inst: ValueRef)
        requires
            bb.0 < old(self)@.blocks.len(),
            inst.0 < old(self)@.values.len(),
            !old(self)@.blocks[bb.0 as int].terminated(old(self)@.values),
            !old(self)@.blocks[bb.0 as int].insts.contains(inst),
        ensures
            final(self)@ == (FunctionView {
                blocks: old(self)@.blocks.update(
                    bb.0 as int,
                    BlockView {
                        insts: old(self)@.blocks[bb.0 as int].insts.push(inst),
                        ..old(self)@.blocks[bb.0 as int]
                    },
                ),
                ..old(self)@
            }),
            old(self)@.wf() ==> final(self)@.wf(),
    {
        self.layout[bb.0].insts.push(inst);
        proof {
            let before = old(self)@;
            let after = self@;
            let blk = before.blocks[bb.0 as int];
            let new_blk = BlockView { insts: blk.insts.push(inst), ..blk };
            assert(after.values =~= before.values);
            assert(after.blocks =~= before.blocks.update(bb.0 as int, new_blk));
            if before.wf() {
                assert(blk.wf(before.values));
                assert forall|j: int, k: int| 0 <= j < k < new_blk.insts.len() implies
                    new_blk.insts[j] != new_blk.insts[k] by {
                    if k == blk.insts.len() {
                        assert(blk.insts.contains(blk.insts[j]));
                    }
                }
                assert forall|j: int| 0 <= j < new_blk.insts.len() - 1 implies !after.values[(
                #[trigger] new_blk.insts[j]).0 as int].is_return() by {
                    if j == blk.insts.len() - 1 {
                        assert(blk.insts.last() == blk.insts[j]);
                    }
                }
                assert(new_blk.wf(after.values));
                assert forall|b: int| 0 <= b < after.blocks.len() implies (
                #[trigger] after.blocks[b]).wf(after.values) by {
                    if b != bb.0 {
                        assert(before.blocks[b].wf(before.values));
                    }
                }
            }
        }
    }
}

/// A program: its functions in the order of their definition.
#[derive(Debug)]
pub struct ProgramData {
    funcs: Vec<FunctionData>,
}

impl ProgramData {
    pub closed spec fn view(&self) -> Seq<FunctionView> {
        Seq::new(self.funcs@.len(), |f: int| self.funcs@[f]@)
    }

    /// The program's invariant.
    pub open spec fn wf(&self) -> bool {
        program_wf(self@)
    }

    /// No value table of the program is longer than a handle can count.
    pub proof fn lemma_tables_fit(&self)
        ensures
            forall|f: int| 0 <= f < self@.len() ==> (#[trigger] self@[f]).values.len() <= usize::MAX,
    {
        assert forall|f: int| 0 <= f < self@.len() implies (#[trigger] self@[f]).values.len()
            <= usize::MAX by {
            self.funcs@[f].lemma_table_fits();
        }
    }

    /// A program without functions.
    pub fn new() -> (p: ProgramData)
        ensures
            p@ == Seq::<FunctionView>::empty(),
            p.wf(),
    {
        let p = ProgramData { funcs: Vec::new() };
        assert(p@ =~= Seq::empty());
        p
    }

    /// Appends a function to the program and returns its handle.
    pub fn new_func(&mut self, data: FunctionData) -> (func: FuncRef)
        requires
            forall|f: int| 0 <= f < old(self)@.len() ==> old(self)@[f].name != data@.name,
        ensures
            func.0 == old(self)@.len(),
            final(self)@ == old(self)@.push(data@),
            old(self).wf() && data@.wf() ==> final(self).wf(),
    {
        let func = FuncRef(self.funcs.len());
        self.funcs.push(data);
        assert(self@ =~= old(self)@.push(data@));
        func
    }

    /// The number of functions.
    pub fn func_count(&self) -> (n: usize)
        ensures
            n == self@.len(),
    {
        self.funcs.len()
    }

    /// The function that `func` names.
    pub fn func(&self, func: FuncRef) -> (data: &FunctionData)
        requires
            func.0 < self@.len(),
        ensures
            data@ == self@[func.0 as int],
    {
        &self.funcs[func.0]
    }

    /// The function that `func` names, to be extended in place. The program
    /// afterwards differs from the one before in that function alone.
    pub fn func_mut(&mut self, func: FuncRef) -> (data: &mut FunctionData)
        requires
            func.0 < old(self)@.len(),
        ensures
            data@ == old(self)@[func.0 as int],
            final(self)@ == old(self)@.update(func.0 as int, final(data)@),
    {
        &mut self.funcs[func.0]
    }
}

} // verus!
