//! The way out to the `koopa` crate: a program of this library is rebuilt,
//! call by call, as a `koopa::ir::Program`, which `koopa` can then print in
//! the text form of Koopa IR.
//!
//! Nothing inside a `koopa` program is visible to the verifier. What it holds
//! is given a name here, and every call into the crate is a small function
//! whose contract says, without proof, what the call does to what is named.

use vstd::prelude::*;
use vstd::string::*;
use koopa::ir::builder::{BasicBlockBuilder, LocalInstBuilder, ValueBuilder};
use crate::ir::{lemma_defined, program_wf, valid_name, BasicBlockNode, BlockRef, BlockView, FuncRef, FunctionData, FunctionView, ProgramData, Type, ValueKind, ValueRef};

verus! {

/// `koopa::ir::Program`: a Koopa IR program.
#[verifier::external_type_specification]
#[verifier::external_body]
pub struct ExKoopaProgram(koopa::ir::Program);

/// `koopa::ir::Function`: the handle of a function of a Koopa IR program.
#[verifier::external_type_specification]
#[verifier::external_body]
pub struct ExKoopaFunction(koopa::ir::Function);

/// `koopa::ir::BasicBlock`: the handle of a basic block.
#[verifier::external_type_specification]
#[verifier::external_body]
pub struct ExKoopaBasicBlock(koopa::ir::BasicBlock);

/// `koopa::ir::Value`: the handle of a value.
#[verifier::external_type_specification]
#[verifier::external_body]
pub struct ExKoopaValue(koopa::ir::Value);

/// The binary operators of Koopa IR that the export uses.
#[derive(Debug, Clone, Copy, PartialEq, Eq)]
pub enum KoopaOp {
    /// `sub`.
    Sub,
    /// `eq`.
    Eq,
}

/// What a value of a Koopa IR function is.
pub enum KoopaKind {
    /// An integer constant.
    Integer(i32),
    /// A binary operation on two values.
    Binary(KoopaOp, koopa::ir::Value, koopa::ir::Value),
    /// A return, with the value returned if there is one.
    Return(Option<koopa::ir::Value>),
    /// Anything else.
    Other,
}

/// A value of a Koopa IR function: what it is, and whether its type is `i32`.
pub struct KoopaValue {
    pub kind: KoopaKind,
    pub is_i32: bool,
}

/// A basic block of a Koopa IR function: its name and its parameters.
pub struct KoopaBlock {
    pub name: Seq<char>,
    pub params: Seq<koopa::ir::Value>,
}

/// What a function of a Koopa IR program holds.
pub struct KoopaFunc {
    /// The function's name.
    pub name: Seq<char>,
    /// The type of its result.
    pub ret_type: Type,
    /// Its parameters.
    pub params: Seq<koopa::ir::Value>,
    /// The values of its data flow graph, by handle.
    pub values: Map<koopa::ir::Value, KoopaValue>,
    /// The basic blocks of its data flow graph, by handle.
    pub bbs: Map<koopa::ir::BasicBlock, KoopaBlock>,
    /// The basic blocks of its layout, in order.
    pub layout: Seq<koopa::ir::BasicBlock>,
    /// The instructions of each basic block of its layout, in order.
    pub insts: Map<koopa::ir::BasicBlock, Seq<koopa::ir::Value>>,
}

/// The functions of a Koopa IR program, in the order of its layout.
pub uninterp spec fn koopa_funcs(p: koopa::ir::Program) -> Seq<koopa::ir::Function>;

/// The global values of a Koopa IR program, in the order of its layout.
pub uninterp spec fn koopa_globals(p: koopa::ir::Program) -> Seq<koopa::ir::Value>;

/// What the function `f` of a Koopa IR program holds.
pub uninterp spec fn koopa_func(p: koopa::ir::Program, f: koopa::ir::Function) -> KoopaFunc;

/// What `koopa` prints a Koopa IR program as, into memory: its text form, or nothing.
pub uninterp spec fn koopa_ir_text(p: koopa::ir::Program) -> Option<Seq<char>>;

impl KoopaFunc {
    /// Whether `v` is a value of the function and can be an operand in its
    /// printed form: it is a constant, an operation or a return.
    pub open spec fn has_operand(self, v: koopa::ir::Value) -> bool {
        self.values.dom().contains(v) && !(self.values[v].kind is Other)
    }

    /// Whether `v` is a value of the function of type `i32`.
    pub open spec fn has_i32(self, v: koopa::ir::Value) -> bool {
        self.values.dom().contains(v) && self.values[v].is_i32
    }

    /// Whether `v` can stand as an instruction in the function's printed
    /// form: it is an operation or a return whose operands are values of the
    /// function.
    pub open spec fn has_inst(self, v: koopa::ir::Value) -> bool {
        self.values.dom().contains(v) && match self.values[v].kind {
            KoopaKind::Binary(_, lhs, rhs) => self.has_operand(lhs) && self.has_operand(rhs),
            KoopaKind::Return(Some(x)) => self.has_operand(x),
            KoopaKind::Return(None) => true,
            _ => false,
        }
    }

    /// Whether the function can be printed: it has no parameters, each
    /// block of its layout is a block of its data flow graph without
    /// parameters, and each instruction can stand as one.
    pub open spec fn printable(self) -> bool {
        &&& self.params.len() == 0
        &&& forall|b: int|
            0 <= b < self.layout.len() ==> {
                let bb = #[trigger] self.layout[b];
                &&& self.bbs.dom().contains(bb)
                &&& self.bbs[bb].params.len() == 0
                &&& self.insts.dom().contains(bb)
                &&& forall|j: int|
                    0 <= j < self.insts[bb].len() ==> self.has_inst(#[trigger] self.insts[bb][j])
            }
    }
}

/// Whether the program `after` is `before` with its function `f` now holding
/// `now`, and nothing else changed.
pub open spec fn changed(
    before: koopa::ir::Program,
    after: koopa::ir::Program,
    f: koopa::ir::Function,
    now: KoopaFunc,
) -> bool {
    &&& koopa_funcs(after) == koopa_funcs(before)
    &&& koopa_globals(after) == koopa_globals(before)
    &&& koopa_func(after, f) == now
    &&& forall|g: koopa::ir::Function| g != f ==> #[trigger] koopa_func(after, g) == koopa_func(before, g)
}

/// Whether a Koopa IR program can be printed: it has no global values, and
/// every function of it can be printed.
pub open spec fn koopa_printable(p: koopa::ir::Program) -> bool {
    &&& koopa_globals(p).len() == 0
    &&& forall|i: int|
        0 <= i < koopa_funcs(p).len() ==> koopa_func(p, #[trigger] koopa_funcs(p)[i]).printable()
}

/// `koopa::ir::Program::new`: a program without functions or global values.
#[verifier::external_body]
fn koopa_program() -> (p: koopa::ir::Program)
    ensures
        koopa_funcs(p) == Seq::<koopa::ir::Function>::empty(),
        koopa_globals(p) == Seq::<koopa::ir::Value>::empty(),
{
    koopa::ir::Program::new()
}

/// `koopa::ir::Program::new_func_def` without parameters: the program gains,
/// at the end of its layout, a function under a handle that it did not have,
/// with the given name and result type and with nothing in it. Nothing else
/// changes. The name must be valid, or the call panics.
#[verifier::external_body]
fn koopa_new_func(p: &mut koopa::ir::Program, name: String, ret_type: Type) -> (f: koopa::ir::Function)
    requires
        valid_name(name@),
    ensures
        !koopa_funcs(*old(p)).contains(f),
        koopa_funcs(*final(p)) == koopa_funcs(*old(p)).push(f),
        koopa_globals(*final(p)) == koopa_globals(*old(p)),
        koopa_func(*final(p), f) == (KoopaFunc {
            name: name@,
            ret_type,
            params: Seq::empty(),
            values: Map::empty(),
            bbs: Map::empty(),
            layout: Seq::empty(),
            insts: Map::empty(),
        }),
        forall|g: koopa::ir::Function|
            g != f ==> #[trigger] koopa_func(*final(p), g) == koopa_func(*old(p), g),
{
    let ty = match ret_type {
        Type::Int32 => koopa::ir::Type::get_i32(),
        Type::Unit => koopa::ir::Type::get_unit(),
    };
    p.new_func_def(name, Vec::new(), ty)
}

/// `koopa::ir::builder::BasicBlockBuilder::basic_block` on the data flow
/// graph of `f`: the graph gains a block of the given name, without
/// parameters, under a handle that it did not have. The layout is untouched. The function must be one
/// of the program's and the name valid, or the call panics.
#[verifier::external_body]
fn koopa_new_bb(p: &mut koopa::ir::Program, f: koopa::ir::Function, name: String) -> (bb:
    koopa::ir::BasicBlock)
    requires
        koopa_funcs(*old(p)).contains(f),
        valid_name(name@),
    ensures
        !koopa_func(*old(p), f).bbs.dom().contains(bb),
        changed(
            *old(p),
            *final(p),
            f,
            KoopaFunc {
                bbs: koopa_func(*old(p), f).bbs.insert(
                    bb,
                    KoopaBlock { name: name@, params: Seq::empty() },
                ),
                ..koopa_func(*old(p), f)
            },
        ),
{
    p.func_mut(f).dfg_mut().new_bb().basic_block(Some(name))
}

/// `push_key_back` on the block list of the layout of `f`: unless the block
/// is in the layout already, it is appended to it, without instructions.
/// The result says whether it was appended. The function must be one of the
/// program's, or the call panics.
#[verifier::external_body]
fn koopa_push_bb(p: &mut koopa::ir::Program, f: koopa::ir::Function, bb: koopa::ir::BasicBlock) -> (ok:
    bool)
    requires
        koopa_funcs(*old(p)).contains(f),
    ensures
        ok == !koopa_func(*old(p), f).layout.contains(bb),
        changed(
            *old(p),
            *final(p),
            f,
            if ok {
                KoopaFunc {
                    layout: koopa_func(*old(p), f).layout.push(bb),
                    insts: koopa_func(*old(p), f).insts.insert(bb, Seq::empty()),
                    ..koopa_func(*old(p), f)
                }
            } else {
                koopa_func(*old(p), f)
            },
        ),
{
    p.func_mut(f).layout_mut().bbs_mut().push_key_back(bb).is_ok()
}

/// `koopa::ir::builder::ValueBuilder::integer` on the data flow graph of
/// `f`: the graph gains the constant `n`, of type `i32`, under a handle that
/// it did not have. The function must be one of the program's, or the call
/// panics.
#[verifier::external_body]
fn koopa_integer(p: &mut koopa::ir::Program, f: koopa::ir::Function, n: i32) -> (v: koopa::ir::Value)
    requires
        koopa_funcs(*old(p)).contains(f),
    ensures
        !koopa_func(*old(p), f).values.dom().contains(v),
        changed(
            *old(p),
            *final(p),
            f,
            KoopaFunc {
                values: koopa_func(*old(p), f).values.insert(
                    v,
                    KoopaValue { kind: KoopaKind::Integer(n), is_i32: true },
                ),
                ..koopa_func(*old(p), f)
            },
        ),
{
    p.func_mut(f).dfg_mut().new_value().integer(n)
}

/// `koopa::ir::builder::LocalInstBuilder::binary` on the data flow graph of
/// `f`: the graph gains the operation `op lhs, rhs`, of type `i32`, under a
/// handle that it did not have. The function must be one of the program's
/// and both operands values of it of type `i32`, or the call panics.
#[verifier::external_body]
fn koopa_binary(
    p: &mut koopa::ir::Program,
    f: koopa::ir::Function,
    op: KoopaOp,
    lhs: koopa::ir::Value,
    rhs: koopa::ir::Value,
) -> (v: koopa::ir::Value)
    requires
        koopa_funcs(*old(p)).contains(f),
        koopa_func(*old(p), f).has_i32(lhs),
        koopa_func(*old(p), f).has_i32(rhs),
    ensures
        !koopa_func(*old(p), f).values.dom().contains(v),
        changed(
            *old(p),
            *final(p),
            f,
            KoopaFunc {
                values: koopa_func(*old(p), f).values.insert(
                    v,
                    KoopaValue { kind: KoopaKind::Binary(op, lhs, rhs), is_i32: true },
                ),
                ..koopa_func(*old(p), f)
            },
        ),
{
    let op = match op {
        KoopaOp::Sub => koopa::ir::BinaryOp::Sub,
        KoopaOp::Eq => koopa::ir::BinaryOp::Eq,
    };
    p.func_mut(f).dfg_mut().new_value().binary(op, lhs, rhs)
}

/// `koopa::ir::builder::LocalInstBuilder::ret` on the data flow graph of
/// `f`: the graph gains a return of `value`, of type unit, under a handle
/// that it did not have. The function must be one of the program's and the
/// value returned, if any, a value of it of type `i32`, or the call panics.
#[verifier::external_body]
fn koopa_ret(p: &mut koopa::ir::Program, f: koopa::ir::Function, value: Option<koopa::ir::Value>) -> (v:
    koopa::ir::Value)
    requires
        koopa_funcs(*old(p)).contains(f),
        value matches Some(x) ==> koopa_func(*old(p), f).has_i32(x),
    ensures
        !koopa_func(*old(p), f).values.dom().contains(v),
        changed(
            *old(p),
            *final(p),
            f,
            KoopaFunc {
                values: koopa_func(*old(p), f).values.insert(
                    v,
                    KoopaValue { kind: KoopaKind::Return(value), is_i32: false },
                ),
                ..koopa_func(*old(p), f)
            },
        ),
{
    p.func_mut(f).dfg_mut().new_value().ret(value)
}

/// `push_key_back` on the instruction list of block `bb` in the layout of
/// `f`: unless the value is in the list already, it is appended to it. The
/// result says whether it was appended. The function must be one of the
/// program's and the block in its layout, or the call panics.
#[verifier::external_body]
fn koopa_push_inst(
    p: &mut koopa::ir::Program,
    f: koopa::ir::Function,
    bb: koopa::ir::BasicBlock,
    inst: koopa::ir::Value,
) -> (ok: bool)
    requires
        koopa_funcs(*old(p)).contains(f),
        koopa_func(*old(p), f).layout.contains(bb),
        koopa_func(*old(p), f).insts.dom().contains(bb),
    ensures
        ok == !koopa_func(*old(p), f).insts[bb].contains(inst),
        changed(
            *old(p),
            *final(p),
            f,
            if ok {
                KoopaFunc {
                    insts: koopa_func(*old(p), f).insts.insert(
                        bb,
                        koopa_func(*old(p), f).insts[bb].push(inst),
                    ),
                    ..koopa_func(*old(p), f)
                }
            } else {
                koopa_func(*old(p), f)
            },
        ),
{
    p.func_mut(f).layout_mut().bb_mut(bb).insts_mut().push_key_back(inst).is_ok()
}

/// `koopa::back::KoopaGenerator::generate_on` with a byte vector to write
/// to: the text form of the program, or nothing if the generator reports
/// that it could not write. The program must be printable, or the call
/// panics.
#[verifier::external_body]
fn koopa_print(p: &koopa::ir::Program) -> (text: Option<String>)
    requires
        koopa_printable(*p),
    ensures
        text_view(text) == koopa_ir_text(*p),
{
    let mut generator = koopa::back::KoopaGenerator::new(Vec::new());
    match generator.generate_on(p) {
        Ok(()) => String::from_utf8(generator.writer()).ok(),
        Err(_) => None,
    }
}

/// Whether `z` is a constant 0 of the Koopa IR function.
pub open spec fn is_zero(k: KoopaFunc, z: koopa::ir::Value) -> bool {
    k.values.dom().contains(z) && k.values[z] == (KoopaValue {
        kind: KoopaKind::Integer(0),
        is_i32: true,
    })
}

/// Whether value `i` of a function of this library, of kind `kind`, stands
/// in the Koopa IR function under the handle `handles[i]`: a constant as a
/// constant, a return as a return, a negation of `x` as `sub 0, x` and a
/// logical not of `x` as `eq x, 0`, with the constant `zeros[i]` for the 0
/// and the handle of `x` for `x`.
pub open spec fn value_exported(
    kind: ValueKind,
    k: KoopaFunc,
    handles: Seq<koopa::ir::Value>,
    zeros: Seq<koopa::ir::Value>,
    i: int,
) -> bool {
    &&& k.values.dom().contains(handles[i])
    &&& match kind {
        ValueKind::Integer(n) => k.values[handles[i]] == (KoopaValue {
            kind: KoopaKind::Integer(n),
            is_i32: true,
        }),
        ValueKind::Negate(x) => is_zero(k, zeros[i]) && k.values[handles[i]] == (KoopaValue {
            kind: KoopaKind::Binary(KoopaOp::Sub, zeros[i], handles[x.0 as int]),
            is_i32: true,
        }),
        ValueKind::LogicalNot(x) => is_zero(k, zeros[i]) && k.values[handles[i]] == (KoopaValue {
            kind: KoopaKind::Binary(KoopaOp::Eq, handles[x.0 as int], zeros[i]),
            is_i32: true,
        }),
        ValueKind::Return(Some(x)) => k.values[handles[i]] == (KoopaValue {
            kind: KoopaKind::Return(Some(handles[x.0 as int])),
            is_i32: false,
        }),
        ValueKind::Return(None) => k.values[handles[i]] == (KoopaValue {
            kind: KoopaKind::Return(None),
            is_i32: false,
        }),
    }
}

/// Whether the first `n` values of `f` stand in the Koopa IR function under
/// the handles `handles`, no two under one handle.
pub open spec fn values_exported(
    f: FunctionView,
    k: KoopaFunc,
    handles: Seq<koopa::ir::Value>,
    zeros: Seq<koopa::ir::Value>,
    n: int,
) -> bool {
    &&& handles.len() == n
    &&& zeros.len() == n
    &&& forall|i: int| 0 <= i < n ==> value_exported(#[trigger] f.values[i], k, handles, zeros, i)
    &&& forall|i: int, j: int| 0 <= i < j < n ==> handles[i] != handles[j]
}

/// Whether a block of this library stands in the Koopa IR function as the
/// block `bb`: under its name, with its instructions in order, each by its
/// handle.
pub open spec fn block_exported(
    blk: BlockView,
    k: KoopaFunc,
    bb: koopa::ir::BasicBlock,
    handles: Seq<koopa::ir::Value>,
) -> bool {
    &&& k.bbs.dom().contains(bb)
    &&& k.bbs[bb] == (KoopaBlock { name: blk.name, params: Seq::empty() })
    &&& k.insts.dom().contains(bb)
    &&& k.insts[bb].len() == blk.insts.len()
    &&& forall|j: int|
        0 <= j < blk.insts.len() ==> #[trigger] k.insts[bb][j] == handles[blk.insts[j].0 as int]
}

/// Whether the first `n` blocks of `f` are the layout of the Koopa IR
/// function.
pub open spec fn blocks_exported(
    f: FunctionView,
    k: KoopaFunc,
    handles: Seq<koopa::ir::Value>,
    n: int,
) -> bool {
    &&& k.layout.len() == n
    &&& forall|b: int| 0 <= b < n ==> block_exported(#[trigger] f.blocks[b], k, k.layout[b], handles)
}

/// Whether the Koopa IR function holds what `f` holds, with `handles` for
/// the handles of the values of `f` and `zeros` for the constants 0 that its
/// operations use.
pub open spec fn tables_match(
    f: FunctionView,
    k: KoopaFunc,
    handles: Seq<koopa::ir::Value>,
    zeros: Seq<koopa::ir::Value>,
) -> bool {
    &&& k.name == f.name
    &&& k.ret_type == f.ret_type
    &&& k.params == Seq::<koopa::ir::Value>::empty()
    &&& values_exported(f, k, handles, zeros, f.values.len() as int)
    &&& blocks_exported(f, k, handles, f.blocks.len() as int)
}

/// Whether the Koopa IR function holds what `f` holds: the name, the result
/// type, the values, and the blocks of the layout with their instructions.
pub open spec fn func_exported(f: FunctionView, k: KoopaFunc) -> bool {
    exists|handles: Seq<koopa::ir::Value>, zeros: Seq<koopa::ir::Value>|
        tables_match(f, k, handles, zeros)
}

/// Whether the Koopa IR program holds what the program `src` holds: no
/// global values, and as many functions, each holding what the function in
/// its place in `src` holds.
pub open spec fn exported(src: Seq<FunctionView>, p: koopa::ir::Program) -> bool {
    &&& koopa_globals(p).len() == 0
    &&& koopa_funcs(p).len() == src.len()
    &&& forall|i: int|
        0 <= i < src.len() ==> func_exported(#[trigger] src[i], koopa_func(p, koopa_funcs(p)[i]))
}

/// Enters the values of `data` into the data flow graph of `f` and returns
/// their handles.
fn export_values(out: &mut koopa::ir::Program, f: koopa::ir::Function, data: &FunctionData) -> (tables: (
    Vec<koopa::ir::Value>,
    Ghost<Seq<koopa::ir::Value>>,
))
    requires
        koopa_funcs(*old(out)).contains(f),
        data@.operands_defined(),
    ensures
        changed(
            *old(out),
            *final(out),
            f,
            KoopaFunc { values: koopa_func(*final(out), f).values, ..koopa_func(*old(out), f) },
        ),
        values_exported(
            data@,
            koopa_func(*final(out), f),
            tables.0@,
            tables.1@,
            data@.values.len() as int,
        ),
{
    let mut handles: Vec<koopa::ir::Value> = Vec::new();
    let ghost mut zeros: Seq<koopa::ir::Value> = Seq::empty();
    let ghost start = koopa_func(*out, f);
    let mut i: usize = 0;
    while i < data.value_count()
        invariant
            i <= data@.values.len(),
            koopa_funcs(*old(out)).contains(f),
            data@.operands_defined(),
            start == koopa_func(*old(out), f),
            changed(*old(out), *out, f, KoopaFunc { values: koopa_func(*out, f).values, ..start }),
            values_exported(data@, koopa_func(*out, f), handles@, zeros, i as int),
        decreases data@.values.len() - i,
    {
        let kind = data.value(ValueRef(i)).kind();
        let ghost before = koopa_func(*out, f);
        let ghost old_handles = handles@;
        let ghost old_zeros = zeros;
        proof {
            lemma_defined(data@, i as int);
        }
        match kind {
            ValueKind::Integer(n) => {
                let h = koopa_integer(out, f, n);
                handles.push(h);
                proof {
                    zeros = zeros.push(h);
                }
            },
            ValueKind::Negate(x) => {
                assert(value_exported(data@.values[x.0 as int], before, old_handles, old_zeros, x.0 as int));
                let z = koopa_integer(out, f, 0);
                let h = koopa_binary(out, f, KoopaOp::Sub, z, handles[x.0]);
                handles.push(h);
                proof {
                    zeros = zeros.push(z);
                }
            },
            ValueKind::LogicalNot(x) => {
                assert(value_exported(data@.values[x.0 as int], before, old_handles, old_zeros, x.0 as int));
                let z = koopa_integer(out, f, 0);
                let h = koopa_binary(out, f, KoopaOp::Eq, handles[x.0], z);
                handles.push(h);
                proof {
                    zeros = zeros.push(z);
                }
            },
            ValueKind::Return(r) => {
                let value = match r {
                    Some(x) => {
                        assert(value_exported(
                            data@.values[x.0 as int],
                            before,
                            old_handles,
                            old_zeros,
                            x.0 as int,
                        ));
                        Some(handles[x.0])
                    },
                    None => None,
                };
                let h = koopa_ret(out, f, value);
                handles.push(h);
                proof {
                    zeros = zeros.push(h);
                }
            },
        }
        proof {
            let now = koopa_func(*out, f);
            assert forall|j: int| 0 <= j < i + 1 implies value_exported(
                #[trigger] data@.values[j],
                now,
                handles@,
                zeros,
                j,
            ) by {
                if j < i {
                    assert(value_exported(data@.values[j], before, old_handles, old_zeros, j));
                    lemma_defined(data@, j);
                }
            }
            assert forall|a: int, b: int| 0 <= a < b < i + 1 implies handles@[a] != handles@[b] by {
                assert(value_exported(data@.values[a], before, old_handles, old_zeros, a));
            }
        }
        i += 1;
    }
    (handles, Ghost(zeros))
}

/// Appends the block `node` to the layout of `f`, with its instructions by
/// their handles.
fn export_block(
    out: &mut koopa::ir::Program,
    f: koopa::ir::Function,
    node: &BasicBlockNode,
    handles: &Vec<koopa::ir::Value>,
) -> (bb: koopa::ir::BasicBlock)
    requires
        koopa_funcs(*old(out)).contains(f),
        valid_name(node@.name),
        forall|j: int| 0 <= j < node@.insts.len() ==> (#[trigger] node@.insts[j]).0 < handles@.len(),
        forall|j: int, l: int| 0 <= j < l < node@.insts.len() ==> node@.insts[j] != node@.insts[l],
        forall|i: int, j: int| 0 <= i < j < handles@.len() ==> handles@[i] != handles@[j],
        forall|b: int|
            0 <= b < koopa_func(*old(out), f).layout.len() ==> koopa_func(*old(out), f).bbs.dom().contains(
                #[trigger] koopa_func(*old(out), f).layout[b],
            ),
    ensures
        !koopa_func(*old(out), f).bbs.dom().contains(bb),
        block_exported(node@, koopa_func(*final(out), f), bb, handles@),
        changed(
            *old(out),
            *final(out),
            f,
            KoopaFunc {
                bbs: koopa_func(*old(out), f).bbs.insert(
                    bb,
                    KoopaBlock { name: node@.name, params: Seq::empty() },
                ),
                layout: koopa_func(*old(out), f).layout.push(bb),
                insts: koopa_func(*old(out), f).insts.insert(bb, koopa_func(*final(out), f).insts[bb]),
                ..koopa_func(*old(out), f)
            },
        ),
{
    let ghost start = koopa_func(*out, f);
    let bb = koopa_new_bb(out, f, String::from_str(node.name()));
    let ok = koopa_push_bb(out, f, bb);
    assert(ok);
    let ghost opened = koopa_func(*out, f);
    assert(opened.layout.last() == bb);
    assert(opened.insts.insert(bb, opened.insts[bb]) =~= opened.insts);
    let insts = node.insts();
    let mut j: usize = 0;
    while j < insts.len()
        invariant
            j <= insts@.len(),
            insts@ == node@.insts,
            koopa_funcs(*old(out)).contains(f),
            forall|j: int| 0 <= j < node@.insts.len() ==> (#[trigger] node@.insts[j]).0 < handles@.len(),
            forall|j: int, l: int| 0 <= j < l < node@.insts.len() ==> node@.insts[j] != node@.insts[l],
            forall|i: int, j: int| 0 <= i < j < handles@.len() ==> handles@[i] != handles@[j],
            opened.layout.contains(bb),
            opened.insts.dom().contains(bb),
            koopa_func(*out, f).insts.dom().contains(bb),
            koopa_func(*out, f).insts[bb].len() == j,
            forall|l: int|
                0 <= l < j ==> #[trigger] koopa_func(*out, f).insts[bb][l] == handles@[insts@[l].0 as int],
            changed(
                *old(out),
                *out,
                f,
                KoopaFunc { insts: opened.insts.insert(bb, koopa_func(*out, f).insts[bb]), ..opened },
            ),
        decreases insts@.len() - j,
    {
        let inst = insts[j];
        let ghost before = koopa_func(*out, f);
        let ok = koopa_push_inst(out, f, bb, handles[inst.0]);
        proof {
            if before.insts[bb].contains(handles@[inst.0 as int]) {
                let l = choose|l: int|
                    0 <= l < before.insts[bb].len() && before.insts[bb][l] == handles@[inst.0 as int];
                assert(insts@[l] != insts@[j as int]);
                assert(false);
            }
            assert(ok);
            let now = koopa_func(*out, f);
            assert(now.insts =~= opened.insts.insert(bb, now.insts[bb]));
        }
        j += 1;
    }
    proof {
        let now = koopa_func(*out, f);
        assert(now.insts =~= start.insts.insert(bb, now.insts[bb]));
    }
    bb
}

/// Appends to the Koopa IR program a function that holds what `data` holds.
fn export_function(out: &mut koopa::ir::Program, data: &FunctionData) -> (f: koopa::ir::Function)
    requires
        data@.wf(),
    ensures
        !koopa_funcs(*old(out)).contains(f),
        koopa_funcs(*final(out)) == koopa_funcs(*old(out)).push(f),
        koopa_globals(*final(out)) == koopa_globals(*old(out)),
        forall|g: koopa::ir::Function|
            g != f ==> #[trigger] koopa_func(*final(out), g) == koopa_func(*old(out), g),
        func_exported(data@, koopa_func(*final(out), f)),
{
    let f = koopa_new_func(out, String::from_str(data.name()), data.ret_type());
    assert(koopa_funcs(*out).last() == f);
    let ghost created = *out;
    let (handles, Ghost(zeros)) = export_values(out, f, data);
    let ghost filled = koopa_func(*out, f);
    let mut b: usize = 0;
    while b < data.bb_count()
        invariant
            b <= data@.blocks.len(),
            data@.wf(),
            koopa_funcs(created).contains(f),
            koopa_funcs(*out) == koopa_funcs(created),
            koopa_globals(*out) == koopa_globals(created),
            koopa_func(*out, f).params == Seq::<koopa::ir::Value>::empty(),
            forall|g: koopa::ir::Function|
                g != f ==> #[trigger] koopa_func(*out, g) == koopa_func(created, g),
            koopa_func(*out, f).name == data@.name,
            koopa_func(*out, f).ret_type == data@.ret_type,
            koopa_func(*out, f).values == filled.values,
            values_exported(data@, filled, handles@, zeros, data@.values.len() as int),
            blocks_exported(data@, koopa_func(*out, f), handles@, b as int),
        decreases data@.blocks.len() - b,
    {
        let node = data.bb(BlockRef(b));
        let ghost before = koopa_func(*out, f);
        proof {
            assert(data@.blocks[b as int].wf(data@.values));
            assert forall|c: int| 0 <= c < before.layout.len() implies before.bbs.dom().contains(
                #[trigger] before.layout[c],
            ) by {
                assert(block_exported(data@.blocks[c], before, before.layout[c], handles@));
            }
        }
        let bb = export_block(out, f, node, &handles);
        proof {
            let now = koopa_func(*out, f);
            assert forall|c: int| 0 <= c < b + 1 implies block_exported(
                #[trigger] data@.blocks[c],
                now,
                now.layout[c],
                handles@,
            ) by {
                if c < b {
                    assert(block_exported(data@.blocks[c], before, before.layout[c], handles@));
                }
            }
        }
        b += 1;
    }
    proof {
        let k = koopa_func(*out, f);
        assert forall|i: int| 0 <= i < data@.values.len() implies value_exported(
            #[trigger] data@.values[i],
            k,
            handles@,
            zeros,
            i,
        ) by {
            assert(value_exported(data@.values[i], filled, handles@, zeros, i));
        }
        assert(tables_match(data@, k, handles@, zeros));
    }
    f
}

/// Rebuilds a program as a Koopa IR program that holds, function by
/// function, what the program holds.
pub fn to_koopa(program: &ProgramData) -> (out: koopa::ir::Program)
    requires
        program.wf(),
    ensures
        exported(program@, out),
{
    let mut out = koopa_program();
    let mut i: usize = 0;
    while i < program.func_count()
        invariant
            i <= program@.len(),
            program.wf(),
            koopa_globals(out).len() == 0,
            koopa_funcs(out).len() == i,
            forall|j: int|
                0 <= j < i ==> func_exported(#[trigger] program@[j], koopa_func(out, koopa_funcs(out)[j])),
        decreases program@.len() - i,
    {
        let ghost before = out;
        assert(program@[i as int].wf());
        let f = export_function(&mut out, program.func(FuncRef(i)));
        proof {
            assert forall|j: int| 0 <= j < i + 1 implies func_exported(
                #[trigger] program@[j],
                koopa_func(out, koopa_funcs(out)[j]),
            ) by {
                if j < i {
                    assert(koopa_funcs(before).contains(koopa_funcs(before)[j]));
                    assert(func_exported(program@[j], koopa_func(before, koopa_funcs(before)[j])));
                }
            }
        }
        i += 1;
    }
    out
}

/// Whether a program can be printed as Koopa IR: its blocks list
/// instructions only.
pub open spec fn printable(funcs: Seq<FunctionView>) -> bool {
    forall|f: int| 0 <= f < funcs.len() ==> (#[trigger] funcs[f]).instructions_only()
}

/// A Koopa IR program that holds what a well-formed program of instructions
/// only holds can be printed.
pub proof fn lemma_exported_printable(src: Seq<FunctionView>, p: koopa::ir::Program)
    requires
        program_wf(src),
        printable(src),
        exported(src, p),
    ensures
        koopa_printable(p),
{
    assert forall|i: int| 0 <= i < koopa_funcs(p).len() implies koopa_func(
        p,
        #[trigger] koopa_funcs(p)[i],
    ).printable() by {
        let f = src[i];
        let k = koopa_func(p, koopa_funcs(p)[i]);
        assert(f.wf());
        assert(f.instructions_only());
        assert(func_exported(f, k));
        let (handles, zeros) = choose|handles: Seq<koopa::ir::Value>, zeros: Seq<koopa::ir::Value>|
            tables_match(f, k, handles, zeros);
        assert forall|b: int| 0 <= b < k.layout.len() implies {
            let bb = #[trigger] k.layout[b];
            &&& k.bbs.dom().contains(bb)
            &&& k.bbs[bb].params.len() == 0
            &&& k.insts.dom().contains(bb)
            &&& forall|j: int| 0 <= j < k.insts[bb].len() ==> k.has_inst(#[trigger] k.insts[bb][j])
        } by {
            let bb = k.layout[b];
            let blk = f.blocks[b];
            assert(block_exported(blk, k, bb, handles));
            assert(blk.wf(f.values));
            assert forall|j: int| 0 <= j < k.insts[bb].len() implies k.has_inst(
                #[trigger] k.insts[bb][j],
            ) by {
                let v = blk.insts[j];
                assert(k.insts[bb][j] == handles[v.0 as int]);
                assert(value_exported(f.values[v.0 as int], k, handles, zeros, v.0 as int));
                lemma_defined(f, v.0 as int);
                match f.values[v.0 as int].operand() {
                    Some(x) => {
                        assert(value_exported(f.values[x.0 as int], k, handles, zeros, x.0 as int));
                    },
                    None => {},
                }
            }
        }
    }
}

/// Whether the blocks of the program list instructions only.
pub fn is_printable(program: &ProgramData) -> (yes: bool)
    requires
        program.wf(),
    ensures
        yes == printable(program@),
{
    let mut f: usize = 0;
    while f < program.func_count()
        invariant
            f <= program@.len(),
            program.wf(),
            forall|g: int| 0 <= g < f ==> (#[trigger] program@[g]).instructions_only(),
        decreases program@.len() - f,
    {
        let data = program.func(FuncRef(f));
        assert(data@.wf());
        let mut b: usize = 0;
        while b < data.bb_count()
            invariant
                b <= data@.blocks.len(),
                f < program@.len(),
                data@ == program@[f as int],
                data@.wf(),
                forall|c: int, j: int|
                    0 <= c < b && 0 <= j < data@.blocks[c].insts.len() ==> !(data@.values[(
                    #[trigger] data@.blocks[c].insts[j]).0 as int] is Integer),
            decreases data@.blocks.len() - b,
        {
            let insts = data.bb(BlockRef(b)).insts();
            assert(data@.blocks[b as int].wf(data@.values));
            let mut j: usize = 0;
            while j < insts.len()
                invariant
                    j <= insts@.len(),
                    b < data@.blocks.len(),
                    f < program@.len(),
                    insts@ == data@.blocks[b as int].insts,
                    data@ == program@[f as int],
                    data@.blocks[b as int].wf(data@.values),
                    forall|l: int|
                        0 <= l < j ==> !(data@.values[(#[trigger] insts@[l]).0 as int] is Integer),
                decreases insts@.len() - j,
            {
                match data.value(insts[j]).kind() {
                    ValueKind::Integer(_) => {
                        assert(data@.values[data@.blocks[b as int].insts[j as int].0 as int] is Integer);
                        assert(!program@[f as int].instructions_only());
                        return false;
                    },
                    _ => {},
                }
                j += 1;
            }
            b += 1;
        }
        f += 1;
    }
    true
}

/// The text form of the Koopa IR program that `program` is rebuilt as.
/// There is none where a block of `program` lists a constant, which Koopa IR
/// has no text for. Otherwise the program is rebuilt and handed to the
/// printer, and the result is what the printer gives for it.
pub fn ir_text(program: &ProgramData) -> (text: Option<String>)
    requires
        program.wf(),
    ensures
        !printable(program@) ==> text is None,
        printable(program@) ==> exists|p: koopa::ir::Program|
            exported(program@, p) && koopa_printable(p) && text_view(text) == koopa_ir_text(p),
{
    if !is_printable(program) {
        return None;
    }
    let out = to_koopa(program);
    proof {
        lemma_exported_printable(program@, out);
    }
    koopa_print(&out)
}

/// A text that may be missing, as a mathematical value.
pub open spec fn text_view(text: Option<String>) -> Option<Seq<char>> {
    match text {
        Some(t) => Some(t@),
        None => None,
    }
}

} // verus!
