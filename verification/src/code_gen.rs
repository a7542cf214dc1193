//! The code generator. It walks the syntax tree and writes the program out
//! as a list of builder instructions for an LLVM module: which functions and
//! blocks to add, where to put the builder, which values to compute. An
//! instruction is named by its index in the list; the values, blocks and
//! functions that instructions use are named by the index of the instruction
//! that made them.
use crate::ast::{
    BinaryOp, CallView, CompareOp, CondView, ExprView, FunType, LogicalOp, ParamView, StmtView,
    Type, VarView,
};
use crate::ast::{call_view, expr_size, exprs_size, exprs_view, Condition, Expr, Funcall, Var};
use crate::ast::{
    lemma_stmts_size, lemma_stmts_view, params_view, stmt_size, stmt_view, stmts_size, stmts_view,
    Func, IfBlock, Loop, Param, Stmt, WhileBlock,
};
use crate::symbols::{StringInterner, SymbolHash, Vardata};
use vstd::prelude::*;

verus! {

/// The kind of an LLVM value: a 64-bit integer, a double, a pointer, or the
/// one-bit result of a comparison.
#[derive(Debug, Clone, Copy, PartialEq, Eq, Structural)]
pub enum ValKind {
    Int,
    Float,
    Ptr,
    Flag,
}

/// One builder instruction.
#[derive(Debug, PartialEq)]
pub enum Instr {
    /// A function of the module, with the kinds of its parameters and of its
    /// result (none: `void`).
    AddFunction { name: String, params: Vec<ValKind>, ret: Option<ValKind> },
    /// A new block at the end of function `func`.
    AppendBlock { func: usize, name: String },
    /// Puts the builder at the end of `block`.
    PositionAtEnd { block: usize },
    /// A 64-bit integer constant.
    ConstInt(i64),
    /// A double constant, written as in the source.
    ConstFloat(String),
    /// A global string constant, and a pointer to its first byte.
    GlobalString(String),
    /// Parameter `index` of function `func`, given the name `name` unless it
    /// is empty.
    Param { func: usize, index: usize, name: String },
    /// A stack slot for a value of kind `kind`.
    Alloca { kind: ValKind, name: String },
    Store { slot: usize, value: usize },
    Load { kind: ValKind, slot: usize, name: String },
    /// A signed integer turned into a double.
    IntToFloat { value: usize },
    /// Integer arithmetic; division is unsigned.
    IntBinary { op: BinaryOp, left: usize, right: usize },
    FloatBinary { op: BinaryOp, left: usize, right: usize },
    /// A signed integer comparison.
    IntCompare { op: CompareOp, left: usize, right: usize },
    And { left: usize, right: usize },
    Or { left: usize, right: usize },
    Call { func: usize, args: Vec<usize>, name: String },
    Return(Option<usize>),
    Branch { target: usize },
    CondBranch { cond: usize, then_block: usize, else_block: usize },
}

pub enum InstrView {
    AddFunction { name: Seq<char>, params: Seq<ValKind>, ret: Option<ValKind> },
    AppendBlock { func: usize, name: Seq<char> },
    PositionAtEnd { block: usize },
    ConstInt(i64),
    ConstFloat(Seq<char>),
    GlobalString(Seq<char>),
    Param { func: usize, index: usize, name: Seq<char> },
    Alloca { kind: ValKind, name: Seq<char> },
    Store { slot: usize, value: usize },
    Load { kind: ValKind, slot: usize, name: Seq<char> },
    IntToFloat { value: usize },
    IntBinary { op: BinaryOp, left: usize, right: usize },
    FloatBinary { op: BinaryOp, left: usize, right: usize },
    IntCompare { op: CompareOp, left: usize, right: usize },
    And { left: usize, right: usize },
    Or { left: usize, right: usize },
    Call { func: usize, args: Seq<usize>, name: Seq<char> },
    Return(Option<usize>),
    Branch { target: usize },
    CondBranch { cond: usize, then_block: usize, else_block: usize },
}

impl View for Instr {
    type V = InstrView;

    open spec fn view(&self) -> InstrView {
        match self {
            Instr::AddFunction { name, params, ret } => InstrView::AddFunction {
                name: name@,
                params: params@,
                ret: *ret,
            },
            Instr::AppendBlock { func, name } => InstrView::AppendBlock { func: *func, name: name@ },
            Instr::PositionAtEnd { block } => InstrView::PositionAtEnd { block: *block },
            Instr::ConstInt(n) => InstrView::ConstInt(*n),
            Instr::ConstFloat(t) => InstrView::ConstFloat(t@),
            Instr::GlobalString(t) => InstrView::GlobalString(t@),
            Instr::Param { func, index, name } => InstrView::Param {
                func: *func,
                index: *index,
                name: name@,
            },
            Instr::Alloca { kind, name } => InstrView::Alloca { kind: *kind, name: name@ },
            Instr::Store { slot, value } => InstrView::Store { slot: *slot, value: *value },
            Instr::Load { kind, slot, name } => InstrView::Load {
                kind: *kind,
                slot: *slot,
                name: name@,
            },
            Instr::IntToFloat { value } => InstrView::IntToFloat { value: *value },
            Instr::IntBinary { op, left, right } => InstrView::IntBinary {
                op: *op,
                left: *left,
                right: *right,
            },
            Instr::FloatBinary { op, left, right } => InstrView::FloatBinary {
                op: *op,
                left: *left,
                right: *right,
            },
            Instr::IntCompare { op, left, right } => InstrView::IntCompare {
                op: *op,
                left: *left,
                right: *right,
            },
            Instr::And { left, right } => InstrView::And { left: *left, right: *right },
            Instr::Or { left, right } => InstrView::Or { left: *left, right: *right },
            Instr::Call { func, args, name } => InstrView::Call {
                func: *func,
                args: args@,
                name: name@,
            },
            Instr::Return(v) => InstrView::Return(*v),
            Instr::Branch { target } => InstrView::Branch { target: *target },
            Instr::CondBranch { cond, then_block, else_block } => InstrView::CondBranch {
                cond: *cond,
                then_block: *then_block,
                else_block: *else_block,
            },
        }
    }
}

pub open spec fn instrs_view(s: Seq<Instr>) -> Seq<InstrView> {
    s.map_values(|i: Instr| i@)
}

/// A function of the module: its name, the instruction that added it and the
/// kind of its result.
pub struct FnDecl {
    pub name: String,
    pub id: usize,
    pub ret: Option<ValKind>,
}

pub struct FnDeclView {
    pub name: Seq<char>,
    pub id: usize,
    pub ret: Option<ValKind>,
}

pub open spec fn fn_decls_view(s: Seq<FnDecl>) -> Seq<FnDeclView> {
    s.map_values(|f: FnDecl| FnDeclView { name: f.name@, id: f.id, ret: f.ret })
}

/// Everything the code generator keeps track of.
pub struct Gen {
    /// The instructions written so far.
    pub code: Seq<InstrView>,
    /// For each instruction: it is a block whose last instruction is a
    /// terminator.
    pub terminated: Seq<bool>,
    /// The variable names of the current function, in order of first use.
    pub names: Seq<Seq<char>>,
    /// The storage of each variable, by the number of its name.
    pub vars: Map<usize, Vardata>,
    /// The functions of the module, in the order they were added.
    pub funcs: Seq<FnDeclView>,
    pub current_func: Option<usize>,
    /// Where `break` jumps to, innermost last.
    pub break_target: Seq<usize>,
    /// Where `continue` jumps to, innermost last.
    pub continue_target: Seq<usize>,
    /// The block the builder is at.
    pub block: Option<usize>,
}

/// An instruction that goes into the builder's current block (a global
/// string is made by the builder too, and needs it at a block).
pub open spec fn in_block(i: InstrView) -> bool {
    match i {
        InstrView::AddFunction { .. } | InstrView::AppendBlock { .. } | InstrView::PositionAtEnd {
            ..
        } | InstrView::ConstInt(_) | InstrView::ConstFloat(_) | InstrView::Param { .. } => false,
        _ => true,
    }
}

pub open spec fn is_terminator(i: InstrView) -> bool {
    match i {
        InstrView::Return(_) | InstrView::Branch { .. } | InstrView::CondBranch { .. } => true,
        _ => false,
    }
}

/// Writes `i`; gives its number. An instruction that goes into a block needs
/// the builder to be at one.
pub open spec fn emit(g: Gen, i: InstrView) -> Option<(Gen, usize)> {
    let id = g.code.len() as usize;
    let g1 = Gen { code: g.code.push(i), terminated: g.terminated.push(false), ..g };
    if in_block(i) {
        match g.block {
            None => None,
            Some(b) => Some((Gen { terminated: g1.terminated.update(b as int, is_terminator(i)), ..g1 }, id)),
        }
    } else {
        Some((g1, id))
    }
}

/// Puts the builder at the end of block `b`.
pub open spec fn position(g: Gen, b: usize) -> Gen {
    Gen {
        code: g.code.push(InstrView::PositionAtEnd { block: b }),
        terminated: g.terminated.push(false),
        block: Some(b),
        ..g
    }
}

/// The first function of the module named `name`.
pub open spec fn find_fn(fs: Seq<FnDeclView>, name: Seq<char>) -> Option<FnDeclView>
    decreases fs.len(),
{
    if fs.len() == 0 {
        None
    } else if fs[0].name == name {
        Some(fs[0])
    } else {
        find_fn(fs.drop_first(), name)
    }
}

/// The storage of the variable `name` of the current function.
pub open spec fn var_of(g: Gen, name: Seq<char>) -> Option<Vardata> {
    if g.names.contains(name) && g.vars.contains_key(g.names.index_of(name) as usize) {
        Some(g.vars[g.names.index_of(name) as usize])
    } else {
        None
    }
}

/// The kind of value a variable of type `t` holds, for the types that have one.
pub open spec fn type_kind(t: Type) -> Option<ValKind> {
    match t {
        Type::Int => Some(ValKind::Int),
        Type::Float => Some(ValKind::Float),
        Type::Str => Some(ValKind::Ptr),
        _ => None,
    }
}

pub open spec fn tmp_name() -> Seq<char> {
    seq!['t', 'm', 'p']
}

/// Loads the variable `name` (its value, by the kind of its type).
pub open spec fn g_load_var(g: Gen, name: Seq<char>) -> Option<(Gen, usize, ValKind)> {
    match var_of(g, name) {
        None => None,
        Some(v) => match type_kind(v.ty) {
            None => None,
            Some(k) => match emit(g, InstrView::Load { kind: k, slot: v.ptr, name: tmp_name() }) {
                Some((g1, id)) => Some((g1, id, k)),
                None => None,
            },
        },
    }
}

/// The value of `e`, computed at the builder's block.
pub open spec fn g_value(g: Gen, e: ExprView) -> Option<(Gen, usize, ValKind)>
    decreases e,
{
    match e {
        ExprView::Id(name) => g_load_var(g, name),
        ExprView::Float(t) => match emit(g, InstrView::ConstFloat(t)) {
            Some((g1, id)) => Some((g1, id, ValKind::Float)),
            None => None,
        },
        ExprView::Num(n) => match emit(g, InstrView::ConstInt(n)) {
            Some((g1, id)) => Some((g1, id, ValKind::Int)),
            None => None,
        },
        ExprView::Str(t) => match emit(g, InstrView::GlobalString(t)) {
            Some((g1, id)) => Some((g1, id, ValKind::Ptr)),
            None => None,
        },
        ExprView::Binary(_, _, _) => g_binary(g, e),
        ExprView::Func(c) => g_call_expr(g, c),
        _ => None,
    }
}

/// `op` applied to two values; a mix of an integer and a double is computed
/// in doubles.
pub open spec fn g_arith(g: Gen, op: BinaryOp, l: usize, lk: ValKind, r: usize, rk: ValKind) -> Option<
    (Gen, usize, ValKind),
> {
    match (lk, rk) {
        (ValKind::Float, ValKind::Int) => match emit(g, InstrView::IntToFloat { value: r }) {
            Some((g1, c)) => match emit(g1, InstrView::FloatBinary { op, left: l, right: c }) {
                Some((g2, id)) => Some((g2, id, ValKind::Float)),
                None => None,
            },
            None => None,
        },
        (ValKind::Float, ValKind::Float) => match emit(
            g,
            InstrView::FloatBinary { op, left: l, right: r },
        ) {
            Some((g1, id)) => Some((g1, id, ValKind::Float)),
            None => None,
        },
        (ValKind::Int, ValKind::Int) => match emit(g, InstrView::IntBinary { op, left: l, right: r }) {
            Some((g1, id)) => Some((g1, id, ValKind::Int)),
            None => None,
        },
        (ValKind::Int, ValKind::Float) => match emit(g, InstrView::IntToFloat { value: l }) {
            Some((g1, c)) => match emit(g1, InstrView::FloatBinary { op, left: c, right: r }) {
                Some((g2, id)) => Some((g2, id, ValKind::Float)),
                None => None,
            },
            None => None,
        },
        _ => None,
    }
}

/// The value of an arithmetic expression, whose leaves are numbers and
/// variables; a variable that is no double is loaded as an integer.
pub open spec fn g_binary(g: Gen, e: ExprView) -> Option<(Gen, usize, ValKind)>
    decreases e,
{
    match e {
        ExprView::Num(n) => match emit(g, InstrView::ConstInt(n)) {
            Some((g1, id)) => Some((g1, id, ValKind::Int)),
            None => None,
        },
        ExprView::Float(t) => match emit(g, InstrView::ConstFloat(t)) {
            Some((g1, id)) => Some((g1, id, ValKind::Float)),
            None => None,
        },
        ExprView::Id(name) => match var_of(g, name) {
            None => None,
            Some(v) => {
                let k = if v.ty == Type::Float {
                    ValKind::Float
                } else {
                    ValKind::Int
                };
                match emit(g, InstrView::Load { kind: k, slot: v.ptr, name }) {
                    Some((g1, id)) => Some((g1, id, k)),
                    None => None,
                }
            },
        },
        ExprView::Binary(l, op, r) => match g_binary(g, *l) {
            None => None,
            Some((g1, lv, lk)) => match g_binary(g1, *r) {
                None => None,
                Some((g2, rv, rk)) => g_arith(g2, op, lv, lk, rv, rk),
            },
        },
        _ => None,
    }
}

/// The runtime: the first parameter of the current function.
pub open spec fn g_runtime(g: Gen) -> Option<(Gen, usize)> {
    match g.current_func {
        None => None,
        Some(f) => emit(g, InstrView::Param { func: f, index: 0, name: seq![] }),
    }
}

/// The values of `args`, computed from left to right.
pub open spec fn g_args(g: Gen, args: Seq<ExprView>) -> Option<(Gen, Seq<usize>)>
    decreases args,
{
    if args.len() == 0 {
        Some((g, seq![]))
    } else {
        match g_args(g, args.drop_last()) {
            None => None,
            Some((g1, vs)) => match g_value(g1, args.last()) {
                None => None,
                Some((g2, v, _)) => Some((g2, vs.push(v))),
            },
        }
    }
}

/// A call of a function of the module, with the runtime as first argument;
/// gives the instruction of the call and the function found.
pub open spec fn g_call_instr(g: Gen, c: CallView) -> Option<(Gen, usize, FnDeclView)> {
    match find_fn(g.funcs, c.name) {
        None => None,
        Some(f) => match g_runtime(g) {
            None => None,
            Some((g1, rt)) => match g_args(g1, c.args) {
                None => None,
                Some((g2, vs)) => match emit(
                    g2,
                    InstrView::Call { func: f.id, args: seq![rt] + vs, name: c.name },
                ) {
                    None => None,
                    Some((g3, id)) => Some((g3, id, f)),
                },
            },
        },
    }
}

/// The value of a call; the function must give one.
pub open spec fn g_call_expr(g: Gen, c: CallView) -> Option<(Gen, usize, ValKind)>
    decreases c,
{
    match find_fn(g.funcs, c.name) {
        None => None,
        Some(f) => match g_runtime(g) {
            None => None,
            Some((g1, rt)) => match g_args(g1, c.args) {
                None => None,
                Some((g2, vs)) => match emit(
                    g2,
                    InstrView::Call { func: f.id, args: seq![rt] + vs, name: c.name },
                ) {
                    None => None,
                    Some((g3, id)) => match f.ret {
                        None => None,
                        Some(k) => Some((g3, id, k)),
                    },
                },
            },
        },
    }
}

/// The one-bit value of a condition. Comparisons are of integers.
pub open spec fn g_cond(g: Gen, c: CondView) -> Option<(Gen, usize)>
    decreases c,
{
    match c {
        CondView::Compare { left, op, right } => g_comp(g, left, op, right),
        CondView::LogicalCompare { left, op, right } => match g_cond(g, *left) {
            None => None,
            Some((g1, a)) => match g_cond(g1, *right) {
                None => None,
                Some((g2, b)) => match op {
                    LogicalOp::And => emit(g2, InstrView::And { left: a, right: b }),
                    LogicalOp::Or => emit(g2, InstrView::Or { left: a, right: b }),
                },
            },
        },
        CondView::OnlyOne(_) => None,
    }
}

pub open spec fn g_comp(g: Gen, l: ExprView, op: CompareOp, r: ExprView) -> Option<(Gen, usize)> {
    match g_value(g, l) {
        None => None,
        Some((g1, lv, lk)) => if lk != ValKind::Int {
            None
        } else {
            match g_value(g1, r) {
                None => None,
                Some((g2, rv, rk)) => if rk != ValKind::Int {
                    None
                } else {
                    emit(g2, InstrView::IntCompare { op, left: lv, right: rv })
                },
            }
        },
    }
}


// ---------------------------------------------------------------------
// Statements
// ---------------------------------------------------------------------

/// Adds a block named `name` at the end of function `f`.
pub open spec fn append_block(g: Gen, f: usize, name: Seq<char>) -> (Gen, usize) {
    (
        Gen {
            code: g.code.push(InstrView::AppendBlock { func: f, name }),
            terminated: g.terminated.push(false),
            ..g
        },
        g.code.len() as usize,
    )
}

/// The names after numbering `n`, and its number.
pub open spec fn itern_names(names: Seq<Seq<char>>, n: Seq<char>) -> (Seq<Seq<char>>, usize) {
    if names.contains(n) {
        (names, names.index_of(n) as usize)
    } else {
        (names.push(n), names.len() as usize)
    }
}

/// A stack slot named `name` for the value `val` of kind `k`, which becomes the
/// storage of variable `name` of type `ty`.
pub open spec fn g_create_var(g: Gen, name: Seq<char>, val: usize, k: ValKind, ty: Type) -> Option<Gen> {
    match emit(g, InstrView::Alloca { kind: k, name }) {
        None => None,
        Some((g1, slot)) => match emit(g1, InstrView::Store { slot, value: val }) {
            None => None,
            Some((g2, _)) => {
                let (ns, id) = itern_names(g2.names, name);
                Some(Gen { names: ns, vars: g2.vars.insert(id, Vardata { ty, ptr: slot }), ..g2 })
            },
        },
    }
}

/// A declaration: the variable's type follows the kind of its initial value.
pub open spec fn g_read_stmt(g: Gen, v: VarView) -> Option<Gen> {
    match g_value(g, v.value) {
        None => None,
        Some((g1, val, k)) => match k {
            ValKind::Int => g_create_var(g1, v.name, val, k, Type::Int),
            ValKind::Float => g_create_var(g1, v.name, val, k, Type::Float),
            ValKind::Ptr => g_create_var(g1, v.name, val, k, Type::Str),
            ValKind::Flag => None,
        },
    }
}

/// `return e`; nothing is written when the builder is at no block.
pub open spec fn g_return(g: Gen, e: ExprView) -> Option<Gen> {
    match g_value(g, e) {
        None => None,
        Some((g1, v, _)) => if g1.block is None {
            Some(g1)
        } else {
            match emit(g1, InstrView::Return(Some(v))) {
                Some((g2, _)) => Some(g2),
                None => None,
            }
        },
    }
}

/// A call statement; its result, if any, is not used.
pub open spec fn g_call(g: Gen, c: CallView) -> Option<Gen> {
    match g_call_instr(g, c) {
        Some((g1, _, _)) => Some(g1),
        None => None,
    }
}

/// `name = e`; nothing happens when the current function has no variable
/// `name`.
pub open spec fn g_assign(g: Gen, name: Seq<char>, e: ExprView) -> Option<Gen> {
    if !g.names.contains(name) {
        Some(g)
    } else {
        let id = g.names.index_of(name) as usize;
        match g_value(g, e) {
            None => None,
            Some((g1, v, _)) => if !g1.vars.contains_key(id) {
                None
            } else {
                match emit(g1, InstrView::Store { slot: g1.vars[id].ptr, value: v }) {
                    Some((g2, _)) => Some(g2),
                    None => None,
                }
            },
        }
    }
}

/// `break`: a jump to the end of the innermost `while`.
pub open spec fn g_break(g: Gen) -> Option<Gen> {
    if g.break_target.len() == 0 {
        None
    } else {
        match emit(g, InstrView::Branch { target: g.break_target.last() }) {
            Some((g1, _)) => Some(g1),
            None => None,
        }
    }
}

/// `continue`: a jump to the test of the innermost `while`, or to the head of
/// the innermost `loop`.
pub open spec fn g_continue(g: Gen) -> Option<Gen> {
    if g.continue_target.len() == 0 {
        None
    } else {
        match emit(g, InstrView::Branch { target: g.continue_target.last() }) {
            Some((g1, _)) => Some(g1),
            None => None,
        }
    }
}

/// `s` without its last entry, if it has one.
pub open spec fn drop_top(s: Seq<usize>) -> Seq<usize> {
    if s.len() > 0 {
        s.drop_last()
    } else {
        s
    }
}

/// Enters the body of a loop: `break` jumps to `end`, `continue` to `next`.
pub open spec fn enter_loop(g: Gen, end: usize, next: usize) -> Gen {
    Gen {
        break_target: g.break_target.push(end),
        continue_target: g.continue_target.push(next),
        ..g
    }
}

/// Leaves the body of a loop.
pub open spec fn leave_loop(g: Gen) -> Gen {
    Gen {
        break_target: drop_top(g.break_target),
        continue_target: drop_top(g.continue_target),
        ..g
    }
}

/// The current block has no terminator at its end; the builder must be at a block.
pub open spec fn open_block(g: Gen) -> Option<bool> {
    match g.block {
        None => None,
        Some(b) => Some(!g.terminated[b as int]),
    }
}

/// A jump to `target` unless the current block already ends in a terminator.
pub open spec fn g_close_with(g: Gen, target: usize) -> Option<Gen> {
    match open_block(g) {
        None => None,
        Some(true) => match emit(g, InstrView::Branch { target }) {
            Some((g1, _)) => Some(g1),
            None => None,
        },
        Some(false) => Some(g),
    }
}

pub open spec fn param_kinds(args: Seq<ParamView>) -> Option<Seq<ValKind>>
    decreases args.len(),
{
    if args.len() == 0 {
        Some(seq![])
    } else {
        match (param_kinds(args.drop_last()), type_kind(args.last().ty)) {
            (Some(ks), Some(k)) => Some(ks.push(k)),
            _ => None,
        }
    }
}

/// The kind of value a function returns: `Some(None)` for none.
pub open spec fn ret_kind(t: Option<FunType>) -> Option<Option<ValKind>> {
    match t {
        None => Some(None),
        Some(FunType::Int) => Some(Some(ValKind::Int)),
        Some(FunType::Str) => Some(Some(ValKind::Ptr)),
        Some(FunType::Float) => Some(Some(ValKind::Float)),
        _ => None,
    }
}

/// The parameters from `i` on become variables of function `f`: each gets a
/// stack slot that holds the parameter (number `i + 1`; the first is the
/// runtime).
pub open spec fn g_params(g: Gen, f: usize, args: Seq<ParamView>, i: int) -> Option<Gen>
    decreases args.len() - i,
{
    if i < 0 || i >= args.len() {
        Some(g)
    } else {
        let p = args[i];
        match (emit(g, InstrView::Param { func: f, index: (i + 1) as usize, name: p.name }), type_kind(p.ty)) {
            (Some((g1, v)), Some(k)) => {
                let (ns, id) = itern_names(g1.names, p.name);
                let g2 = Gen { names: ns, ..g1 };
                match emit(g2, InstrView::Alloca { kind: k, name: p.name }) {
                    None => None,
                    Some((g3, slot)) => match emit(g3, InstrView::Store { slot, value: v }) {
                        None => None,
                        Some((g4, _)) => g_params(
                            Gen { vars: g4.vars.insert(id, Vardata { ty: p.ty, ptr: slot }), ..g4 },
                            f,
                            args,
                            i + 1,
                        ),
                    },
                }
            },
            _ => None,
        }
    }
}

/// Adds a function named `name` to the module.
pub open spec fn g_add_function(g: Gen, name: Seq<char>, params: Seq<ValKind>, ret: Option<ValKind>) -> (
    Gen,
    usize,
) {
    let fid = g.code.len() as usize;
    (
        Gen {
            code: g.code.push(InstrView::AddFunction { name, params, ret }),
            terminated: g.terminated.push(false),
            funcs: g.funcs.push(FnDeclView { name, id: fid, ret }),
            ..g
        },
        fid,
    )
}

pub open spec fn start_name() -> Seq<char> {
    seq!['s', 't', 'a', 'r', 't']
}

/// A new function named `name` with its `start` block, where the builder is
/// put; its variables start empty.
pub open spec fn g_begin_function(
    g: Gen,
    name: Seq<char>,
    params: Seq<ValKind>,
    ret: Option<ValKind>,
) -> (Gen, usize) {
    let (g1, fid) = g_add_function(g, name, params, ret);
    let (g2, start) = append_block(g1, fid, start_name());
    let g3 = position(g2, start);
    (Gen { names: seq![], vars: Map::empty(), ..g3 }, fid)
}

/// The statements `ss`, in order.
pub open spec fn g_stmts(g: Gen, ss: Seq<StmtView>) -> Option<Gen>
    decreases ss, 2int,
{
    if ss.len() == 0 {
        Some(g)
    } else {
        match g_stmts(g, ss.drop_last()) {
            None => None,
            Some(g1) => g_stmt(g1, ss.last()),
        }
    }
}

/// One statement.
pub open spec fn g_stmt(g: Gen, s: StmtView) -> Option<Gen>
    decreases s, 1int,
{
    match s {
        StmtView::Int(v) => g_read_stmt(g, v),
        StmtView::Str(v) => g_read_stmt(g, v),
        StmtView::Float(v) => g_read_stmt(g, v),
        StmtView::Char(v) => g_read_stmt(g, v),
        StmtView::Bool(v) => g_read_stmt(g, v),
        StmtView::Loop { .. } => g_loop(g, s),
        StmtView::Continue => g_continue(g),
        StmtView::Main(_) => g_main(g, s),
        StmtView::If { .. } => g_if(g, s),
        StmtView::Func(_) => g_func(g, s),
        StmtView::Assign { name, value } => g_assign(g, name, value),
        StmtView::Break => g_break(g),
        StmtView::While { .. } => g_while(g, s),
        StmtView::Funcall(c) => g_call(g, c),
        StmtView::ReturnStmt(e) => g_return(g, e),
    }
}

/// `if`: a conditional jump to a `then` block and to an `else` block or past
/// the `if`.
pub open spec fn g_if(g: Gen, s: StmtView) -> Option<Gen>
    decreases s, 0int,
{
    match s {
        StmtView::If { cond, code, locals, elsepart } => match g.current_func {
            None => None,
            Some(f) => match elsepart {
                Some(els) => {
                    let (g1, tb) = append_block(g, f, "if_then"@);
                    let (g2, eb) = append_block(g1, f, "if_else"@);
                    let (g3, end) = append_block(g2, f, "end"@);
                    match g_cond(g3, cond) {
                        None => None,
                        Some((g4, c)) => match emit(
                            g4,
                            InstrView::CondBranch { cond: c, then_block: tb, else_block: eb },
                        ) {
                            None => None,
                            Some((g5, _)) => match g_stmts(position(g5, tb), code) {
                                None => None,
                                Some(g7) => match emit(g7, InstrView::Branch { target: end }) {
                                    None => None,
                                    Some((g8, _)) => g_stmts(position(g8, eb), els),
                                },
                            },
                        },
                    }
                },
                None => {
                    let (g1, tb) = append_block(g, f, "if_then"@);
                    let (g2, end) = append_block(g1, f, "if_end"@);
                    match g_cond(g2, cond) {
                        None => None,
                        Some((g3, c)) => match emit(
                            g3,
                            InstrView::CondBranch { cond: c, then_block: tb, else_block: end },
                        ) {
                            None => None,
                            Some((g4, _)) => match g_stmts(position(g4, tb), code) {
                                None => None,
                                Some(g6) => match g_close_with(g6, end) {
                                    None => None,
                                    Some(g7) => Some(position(g7, end)),
                                },
                            },
                        },
                    }
                },
            },
        },
        _ => None,
    }
}

/// `while`: a block that tests the condition, the body, which jumps back to
/// the test, and a block past the loop, which `break` jumps to; `continue`
/// jumps to the test.
pub open spec fn g_while(g: Gen, s: StmtView) -> Option<Gen>
    decreases s, 0int,
{
    match s {
        StmtView::While { cond, code, locals } => match g.current_func {
            None => None,
            Some(f) => {
                let (g1, cb) = append_block(
                    g,
                    f,
                    "while_cond"@,
                );
                let (g2, body) = append_block(
                    g1,
                    f,
                    "while_body"@,
                );
                let (g3, end) = append_block(g2, f, "while_end"@);
                match emit(g3, InstrView::Branch { target: cb }) {
                    None => None,
                    Some((g4, _)) => match g_cond(position(g4, cb), cond) {
                        None => None,
                        Some((g6, c)) => match emit(
                            g6,
                            InstrView::CondBranch { cond: c, then_block: body, else_block: end },
                        ) {
                            None => None,
                            Some((g7, _)) => {
                                let g9 = enter_loop(position(g7, body), end, cb);
                                match g_stmts(g9, code) {
                                    None => None,
                                    Some(g10) => match g_close_with(g10, cb) {
                                        None => None,
                                        Some(g11) => Some(position(leave_loop(g11), end)),
                                    },
                                }
                            },
                        },
                    },
                }
            },
        },
        _ => None,
    }
}

/// `loop`: a head block, the body, which jumps back to the head, and a
/// block past the loop, which `break` jumps to; `continue` jumps to the head.
pub open spec fn g_loop(g: Gen, s: StmtView) -> Option<Gen>
    decreases s, 0int,
{
    match s {
        StmtView::Loop { locals, code } => match g.current_func {
            None => None,
            Some(f) => {
                let (g1, head) = append_block(g, f, "loop"@);
                let (g2, end) = append_block(g1, f, "loop_end"@);
                match emit(g2, InstrView::Branch { target: head }) {
                    None => None,
                    Some((g3, _)) => match g_stmts(enter_loop(position(g3, head), end, head), code) {
                        None => None,
                        Some(g4) => match g_close_with(g4, head) {
                            None => None,
                            Some(g5) => Some(position(leave_loop(g5), end)),
                        },
                    },
                }
            },
        },
        _ => None,
    }
}

pub open spec fn main_fn_name() -> Seq<char> {
    seq!['m', 'a', 'i', 'n']
}

/// `main`: a function that takes the runtime and returns nothing.
pub open spec fn g_main(g: Gen, s: StmtView) -> Option<Gen>
    decreases s, 0int,
{
    match s {
        StmtView::Main(f) => {
            let (g1, fid) = g_begin_function(g, main_fn_name(), seq![ValKind::Ptr], None);
            match g_stmts(Gen { current_func: Some(fid), ..g1 }, f.code) {
                None => None,
                Some(g2) => if g2.block is None {
                    Some(g2)
                } else {
                    match emit(g2, InstrView::Return(None)) {
                        Some((g3, _)) => Some(g3),
                        None => None,
                    }
                },
            }
        },
        _ => None,
    }
}

/// A function definition: it takes the runtime and its parameters; when it
/// returns nothing, a `return` ends its code.
pub open spec fn g_func(g: Gen, s: StmtView) -> Option<Gen>
    decreases s, 0int,
{
    match s {
        StmtView::Func(f) => match (param_kinds(f.args), ret_kind(f.ty)) {
            (Some(pk), Some(rk)) => {
                let (g1, fid) = g_begin_function(g, f.name, seq![ValKind::Ptr] + pk, rk);
                match g_params(g1, fid, f.args, 0) {
                    None => None,
                    Some(g2) => match g_stmts(Gen { current_func: Some(fid), ..g2 }, f.code) {
                        None => None,
                        Some(g3) => if f.ty is None {
                            match emit(g3, InstrView::Return(None)) {
                                Some((g4, _)) => Some(g4),
                                None => None,
                            }
                        } else {
                            Some(g3)
                        },
                    },
                }
            },
            _ => None,
        },
        _ => None,
    }
}


/// Law: numbering a name a second time changes nothing and gives the number
/// it got the first time.
pub proof fn law_itern_idempotent(names: Seq<Seq<char>>, n: Seq<char>)
    ensures
        itern_names(itern_names(names, n).0, n) == itern_names(names, n),
{
    if !names.contains(n) {
        let ns = names.push(n);
        assert(ns[names.len() as int] == n);
        let i = ns.index_of(n);
        if i < names.len() {
            assert(names[i] == n);
        }
    }
}

/// Law: compiling the statements `a` and then the statements `b` is
/// compiling `a` followed by `b`.
pub proof fn law_stmts_concat(g: Gen, a: Seq<StmtView>, b: Seq<StmtView>)
    ensures
        g_stmts(g, a + b) == match g_stmts(g, a) {
            Some(g1) => g_stmts(g1, b),
            None => None,
        },
    decreases b.len(),
{
    if b.len() == 0 {
        assert(a + b =~= a);
    } else {
        law_stmts_concat(g, a, b.drop_last());
        assert((a + b).drop_last() =~= a + b.drop_last());
        assert((a + b).last() == b.last());
    }
}

/// `y` is the value `x` of kind `k` as a double: `x` itself when it is one,
/// or the instruction that converts the integer `x`.
pub open spec fn as_double(code: Seq<InstrView>, x: usize, k: ValKind, y: usize) -> bool {
    ||| k == ValKind::Float && y == x
    ||| k == ValKind::Int && y < code.len() && code[y as int] == InstrView::IntToFloat { value: x }
}

/// Law: the value of `l op r` is computed by one last instruction that
/// applies `op` to the value of `l` as its left operand and that of `r` as its
/// right operand, both computed in that order: an integer instruction when
/// both are integers, else a double one on both as doubles. (The
/// instructions must be numbered by `usize`.)
pub proof fn law_arith_operands(g: Gen, l: ExprView, op: BinaryOp, r: ExprView)
    ensures
        match g_binary(g, ExprView::Binary(Box::new(l), op, Box::new(r))) {
            None => true,
            Some((g3, v, k)) => g3.code.len() <= usize::MAX ==> match g_binary(g, l) {
                None => false,
                Some((g1, lv, lk)) => match g_binary(g1, r) {
                    None => false,
                    Some((g2, rv, rk)) => {
                        &&& v == g3.code.len() - 1
                        &&& if lk == ValKind::Int && rk == ValKind::Int {
                            &&& k == ValKind::Int
                            &&& g3.code[v as int] == InstrView::IntBinary { op, left: lv, right: rv }
                        } else {
                            &&& k == ValKind::Float
                            &&& (g3.code[v as int] matches InstrView::FloatBinary {
                                op: o,
                                left: x,
                                right: y,
                            } && o == op && as_double(g3.code, lv, lk, x) && as_double(
                                g3.code,
                                rv,
                                rk,
                                y,
                            ))
                        }
                    },
                },
            },
        },
{
    let e = ExprView::Binary(Box::new(l), op, Box::new(r));
    if let Some((g3, v, k)) = g_binary(g, e) {
        if g3.code.len() <= usize::MAX {
            let (g1, lv, lk) = g_binary(g, l)->0;
            let (g2, rv, rk) = g_binary(g1, r)->0;
            assert(g_arith(g2, op, lv, lk, rv, rk) == Some((g3, v, k)));
            if lk == ValKind::Float && rk == ValKind::Int {
                let (gc, c) = emit(g2, InstrView::IntToFloat { value: rv })->0;
                assert(g3.code[c as int] == gc.code[c as int]);
            } else if lk == ValKind::Int && rk == ValKind::Float {
                let (gc, c) = emit(g2, InstrView::IntToFloat { value: lv })->0;
                assert(g3.code[c as int] == gc.code[c as int]);
            }
        }
    }
}

/// Law: the one-bit value of `left && right` is an `And`, and that of
/// `left || right` an `Or`, of the values of `left` and of `right`,
/// computed in that order; it is the last instruction written. (The
/// instructions must be numbered by `usize`.)
pub proof fn law_logical_operator(g: Gen, left: CondView, op: LogicalOp, right: CondView)
    ensures
        match g_cond(g, CondView::LogicalCompare { left: Box::new(left), op, right: Box::new(right) }) {
            None => true,
            Some((g2, v)) => g2.code.len() <= usize::MAX ==> match g_cond(g, left) {
                None => false,
                Some((g1, a)) => match g_cond(g1, right) {
                    None => false,
                    Some((_, b)) => {
                        &&& v == g2.code.len() - 1
                        &&& g2.code[v as int] == if op == LogicalOp::And {
                            InstrView::And { left: a, right: b }
                        } else {
                            InstrView::Or { left: a, right: b }
                        }
                    },
                },
            },
        },
{
}

// ---------------------------------------------------------------------
// The code generator
// ---------------------------------------------------------------------

fn instr_in_block(i: &Instr) -> (b: bool)
    ensures
        b == in_block(i@),
{
    match i {
        Instr::AddFunction { .. } | Instr::AppendBlock { .. } | Instr::PositionAtEnd { .. }
        | Instr::ConstInt(_) | Instr::ConstFloat(_) | Instr::Param {
            ..
        } => false,
        _ => true,
    }
}

fn instr_is_terminator(i: &Instr) -> (b: bool)
    ensures
        b == is_terminator(i@),
{
    match i {
        Instr::Return(_) | Instr::Branch { .. } | Instr::CondBranch { .. } => true,
        _ => false,
    }
}

pub struct Compiler {
    module_name: String,
    code: Vec<Instr>,
    terminated: Vec<bool>,
    variables: SymbolHash,
    string_interner: StringInterner,
    funcs: Vec<FnDecl>,
    current_func: Option<usize>,
    break_target: Vec<usize>,
    continue_target: Vec<usize>,
    block: Option<usize>,
}

impl Compiler {
    pub closed spec fn gen(&self) -> Gen {
        Gen {
            code: instrs_view(self.code@),
            terminated: self.terminated@,
            names: self.string_interner@,
            vars: self.variables@,
            funcs: fn_decls_view(self.funcs@),
            current_func: self.current_func,
            break_target: self.break_target@,
            continue_target: self.continue_target@,
            block: self.block,
        }
    }

    pub closed spec fn wf(&self) -> bool {
        &&& self.string_interner.wf()
        &&& self.terminated@.len() == self.code@.len()
        &&& self.block matches Some(b) ==> b < self.code@.len()
    }

    pub closed spec fn spec_module_name(&self) -> Seq<char> {
        self.module_name@
    }

    /// A code generator for the module `module_name`, with nothing written.
    pub fn new(module_name: &str) -> (r: Compiler)
        ensures
            r.wf(),
            r.spec_module_name() == module_name@,
            r.gen() == (Gen {
                code: seq![],
                terminated: seq![],
                names: seq![],
                vars: Map::empty(),
                funcs: seq![],
                current_func: None,
                break_target: seq![],
                continue_target: seq![],
                block: None,
            }),
    {
        let r = Compiler {
            module_name: String::from_str(module_name),
            code: Vec::new(),
            terminated: Vec::new(),
            variables: SymbolHash::new(),
            string_interner: StringInterner::new(),
            funcs: Vec::new(),
            current_func: None,
            break_target: Vec::new(),
            continue_target: Vec::new(),
            block: None,
        };
        assert(instrs_view(r.code@) =~= seq![]);
        assert(fn_decls_view(r.funcs@) =~= seq![]);
        r
    }

    /// The name of the module.
    pub fn module_name(&self) -> (r: &String)
        ensures
            r@ == self.spec_module_name(),
    {
        &self.module_name
    }

    /// The instructions written so far.
    pub fn code(&self) -> (r: &Vec<Instr>)
        ensures
            instrs_view(r@) == self.gen().code,
    {
        &self.code
    }

    fn emit(&mut self, i: Instr) -> (r: Option<usize>)
        requires
            old(self).wf(),
        ensures
            final(self).wf(),
            final(self).spec_module_name() == old(self).spec_module_name(),
            old(self).code@.len() <= final(self).code@.len(),
            match emit(old(self).gen(), i@) {
                Some((g, id)) => r == Some(id) && final(self).gen() == g,
                None => r is None && final(self).gen() == old(self).gen(),
            },
    {
        let id = self.code.len();
        let inb = instr_in_block(&i);
        let term = instr_is_terminator(&i);
        let ghost iv = i@;
        if inb {
            match self.block {
                None => {
                    return None;
                },
                Some(b) => {
                    self.code.push(i);
                    self.terminated.push(false);
                    self.terminated.set(b, term);
                },
            }
        } else {
            self.code.push(i);
            self.terminated.push(false);
        }
        assert(instrs_view(self.code@) =~= instrs_view(old(self).code@).push(iv));
        Some(id)
    }

    /// Puts the builder at the end of block `b`.
    fn position_at_end(&mut self, b: usize)
        requires
            old(self).wf(),
            b < old(self).code@.len(),
        ensures
            final(self).wf(),
            final(self).spec_module_name() == old(self).spec_module_name(),
            old(self).code@.len() <= final(self).code@.len(),
            final(self).gen() == position(old(self).gen(), b),
            final(self).code@.len() == old(self).code@.len() + 1,
    {
        let ghost before = self.code@;
        self.code.push(Instr::PositionAtEnd { block: b });
        self.terminated.push(false);
        self.block = Some(b);
        assert(instrs_view(self.code@) =~= instrs_view(before).push(
            InstrView::PositionAtEnd { block: b },
        ));
    }

    /// Adds a block named `name` at the end of function `f`.
    fn append_block(&mut self, f: usize, name: String) -> (r: usize)
        requires
            old(self).wf(),
        ensures
            final(self).wf(),
            final(self).spec_module_name() == old(self).spec_module_name(),
            old(self).code@.len() <= final(self).code@.len(),
            (final(self).gen(), r) == append_block(old(self).gen(), f, name@),
            r < final(self).code@.len(),
    {
        let id = self.code.len();
        let ghost before = self.code@;
        self.code.push(Instr::AppendBlock { func: f, name });
        self.terminated.push(false);
        assert(instrs_view(self.code@) =~= instrs_view(before).push(
            InstrView::AppendBlock { func: f, name: name@ },
        ));
        id
    }

    /// The first function of the module named `name`.
    fn find_function(&self, name: &String) -> (r: Option<(usize, Option<ValKind>)>)
        ensures
            match find_fn(self.gen().funcs, name@) {
                Some(f) => r == Some((f.id, f.ret)),
                None => r is None,
            },
    {
        let ghost fs = fn_decls_view(self.funcs@);
        let mut k: usize = 0;
        assert(fs.skip(0) =~= fs);
        while k < self.funcs.len()
            invariant
                fs == fn_decls_view(self.funcs@),
                fs == self.gen().funcs,
                0 <= k <= self.funcs@.len(),
                find_fn(fs, name@) == find_fn(fs.skip(k as int), name@),
            decreases self.funcs@.len() - k,
        {
            assert(fs.skip(k as int)[0] == fs[k as int]);
            if self.funcs[k].name == *name {
                return Some((self.funcs[k].id, self.funcs[k].ret));
            }
            assert(fs.skip(k as int).drop_first() =~= fs.skip(k + 1));
            k = k + 1;
        }
        None
    }

    /// The storage of variable `name` of the current function.
    fn get_var(&self, name: &String) -> (r: Option<Vardata>)
        requires
            self.wf(),
        ensures
            r == var_of(self.gen(), name@),
    {
        if !self.string_interner.contains(name) {
            return None;
        }
        let id = self.string_interner.lookup(name);
        proof {
            let g = self.gen();
            let j = g.names.index_of(name@);
            self.string_interner.law_ids_unique(id as int, j);
        }
        self.variables.get_var(id)
    }
}


/// Lemma: when the values of some first arguments cannot be computed, those
/// of all cannot.
proof fn lemma_args_prefix_fails(g: Gen, s: Seq<ExprView>, k: int)
    requires
        0 <= k <= s.len(),
        g_args(g, s.take(k)) is None,
    ensures
        g_args(g, s) is None,
    decreases s.len(),
{
    if k == s.len() {
        assert(s.take(k) =~= s);
    } else {
        assert(s.drop_last().take(k) =~= s.take(k));
        lemma_args_prefix_fails(g, s.drop_last(), k);
    }
}

fn tmp() -> (r: String)
    ensures
        r@ == tmp_name(),
{
    let r = String::from_str("tmp");
    proof {
        reveal_strlit("tmp");
    }
    assert(r@ =~= tmp_name());
    r
}

impl Compiler {
    /// Loads the variable `name`.
    fn load_var(&mut self, name: &String) -> (r: Option<(usize, ValKind)>)
        requires
            old(self).wf(),
        ensures
            final(self).wf(),
            final(self).spec_module_name() == old(self).spec_module_name(),
            old(self).code@.len() <= final(self).code@.len(),
            match g_load_var(old(self).gen(), name@) {
                Some((g, v, k)) => r == Some((v, k)) && final(self).gen() == g,
                None => r is None,
            },
    {
        let var = match self.get_var(name) {
            Some(v) => v,
            None => {
                return None;
            },
        };
        let k = match var.ty {
            Type::Int => ValKind::Int,
            Type::Float => ValKind::Float,
            Type::Str => ValKind::Ptr,
            _ => {
                return None;
            },
        };
        match self.emit(Instr::Load { kind: k, slot: var.ptr, name: tmp() }) {
            Some(id) => Some((id, k)),
            None => None,
        }
    }

    /// The value of `expr`, computed at the builder's block.
    fn try_value_of_expr(&mut self, expr: &Expr) -> (r: Option<(usize, ValKind)>)
        requires
            old(self).wf(),
        ensures
            final(self).wf(),
            final(self).spec_module_name() == old(self).spec_module_name(),
            old(self).code@.len() <= final(self).code@.len(),
            match g_value(old(self).gen(), expr@) {
                Some((g, v, k)) => r == Some((v, k)) && final(self).gen() == g,
                None => r is None,
            },
        decreases expr_size(*expr), 0int,
    {
        match expr {
            Expr::Id(name) => self.load_var(name),
            Expr::Float(f) => match self.emit(Instr::ConstFloat(f.clone())) {
                Some(id) => Some((id, ValKind::Float)),
                None => None,
            },
            Expr::Num(n) => match self.emit(Instr::ConstInt(*n)) {
                Some(id) => Some((id, ValKind::Int)),
                None => None,
            },
            Expr::Str(t) => match self.emit(Instr::GlobalString(t.clone())) {
                Some(id) => Some((id, ValKind::Ptr)),
                None => None,
            },
            Expr::Binary(_, _, _) => self.try_binary(expr),
            Expr::Func(call) => {
                assert(expr_size(*expr) == 1 + exprs_size(call.args@));
                self.do_call_expr(call)
            },
            _ => None,
        }
    }

    /// `op` applied to the values `l` and `r`.
    fn arith(&mut self, op: BinaryOp, l: usize, lk: ValKind, r: usize, rk: ValKind) -> (res: Option<
        (usize, ValKind),
    >)
        requires
            old(self).wf(),
        ensures
            final(self).wf(),
            final(self).spec_module_name() == old(self).spec_module_name(),
            old(self).code@.len() <= final(self).code@.len(),
            match g_arith(old(self).gen(), op, l, lk, r, rk) {
                Some((g, v, k)) => res == Some((v, k)) && final(self).gen() == g,
                None => res is None,
            },
    {
        match (lk, rk) {
            (ValKind::Float, ValKind::Int) => {
                let c = match self.emit(Instr::IntToFloat { value: r }) {
                    Some(c) => c,
                    None => {
                        return None;
                    },
                };
                match self.emit(Instr::FloatBinary { op, left: l, right: c }) {
                    Some(id) => Some((id, ValKind::Float)),
                    None => None,
                }
            },
            (ValKind::Float, ValKind::Float) => match self.emit(
                Instr::FloatBinary { op, left: l, right: r },
            ) {
                Some(id) => Some((id, ValKind::Float)),
                None => None,
            },
            (ValKind::Int, ValKind::Int) => match self.emit(Instr::IntBinary { op, left: l, right: r }) {
                Some(id) => Some((id, ValKind::Int)),
                None => None,
            },
            (ValKind::Int, ValKind::Float) => {
                let c = match self.emit(Instr::IntToFloat { value: l }) {
                    Some(c) => c,
                    None => {
                        return None;
                    },
                };
                match self.emit(Instr::FloatBinary { op, left: c, right: r }) {
                    Some(id) => Some((id, ValKind::Float)),
                    None => None,
                }
            },
            _ => None,
        }
    }

    /// The value of an arithmetic expression.
    fn try_binary(&mut self, expr: &Expr) -> (r: Option<(usize, ValKind)>)
        requires
            old(self).wf(),
        ensures
            final(self).wf(),
            final(self).spec_module_name() == old(self).spec_module_name(),
            old(self).code@.len() <= final(self).code@.len(),
            match g_binary(old(self).gen(), expr@) {
                Some((g, v, k)) => r == Some((v, k)) && final(self).gen() == g,
                None => r is None,
            },
        decreases expr_size(*expr),
    {
        match expr {
            Expr::Num(n) => match self.emit(Instr::ConstInt(*n)) {
                Some(id) => Some((id, ValKind::Int)),
                None => None,
            },
            Expr::Float(f) => match self.emit(Instr::ConstFloat(f.clone())) {
                Some(id) => Some((id, ValKind::Float)),
                None => None,
            },
            Expr::Id(name) => {
                let var = match self.get_var(name) {
                    Some(v) => v,
                    None => {
                        return None;
                    },
                };
                let k = if var.ty == Type::Float {
                    ValKind::Float
                } else {
                    ValKind::Int
                };
                match self.emit(Instr::Load { kind: k, slot: var.ptr, name: name.clone() }) {
                    Some(id) => Some((id, k)),
                    None => None,
                }
            },
            Expr::Binary(left_raw, op, right_raw) => {
                let (lv, lk) = match self.try_binary(&**left_raw) {
                    Some(x) => x,
                    None => {
                        return None;
                    },
                };
                let (rv, rk) = match self.try_binary(&**right_raw) {
                    Some(x) => x,
                    None => {
                        return None;
                    },
                };
                self.arith(*op, lv, lk, rv, rk)
            },
            _ => None,
        }
    }

    /// The runtime: the first parameter of the current function.
    fn get_runtime(&mut self) -> (r: Option<usize>)
        requires
            old(self).wf(),
        ensures
            final(self).wf(),
            final(self).spec_module_name() == old(self).spec_module_name(),
            old(self).code@.len() <= final(self).code@.len(),
            match g_runtime(old(self).gen()) {
                Some((g, v)) => r == Some(v) && final(self).gen() == g,
                None => r is None,
            },
    {
        match self.current_func {
            None => None,
            Some(f) => {
                let empty = String::new();
                assert(empty@ =~= Seq::<char>::empty());
                self.emit(Instr::Param { func: f, index: 0, name: empty })
            },
        }
    }

    /// The values of the arguments of `call`, from left to right.
    fn call_args(&mut self, call: &Funcall) -> (r: Option<Vec<usize>>)
        requires
            old(self).wf(),
        ensures
            final(self).wf(),
            final(self).spec_module_name() == old(self).spec_module_name(),
            old(self).code@.len() <= final(self).code@.len(),
            match g_args(old(self).gen(), exprs_view(call.args@)) {
                Some((g, vs)) => r matches Some(v) && v@ == vs && final(self).gen() == g,
                None => r is None,
            },
        decreases exprs_size(call.args@), 1int,
    {
        let ghost g0 = self.gen();
        let ghost args = exprs_view(call.args@);
        proof {
            crate::ast::lemma_exprs_view(call.args@);
        }
        let mut vals: Vec<usize> = Vec::new();
        let mut i: usize = 0;
        assert(args.take(0) =~= seq![]);
        while i < call.args.len()
            invariant
                self.wf(),
                self.spec_module_name() == old(self).spec_module_name(),
                old(self).code@.len() <= self.code@.len(),
                g0 == old(self).gen(),
                args == exprs_view(call.args@),
                args.len() == call.args@.len(),
                forall|k: int| 0 <= k < call.args@.len() ==> #[trigger] args[k] == call.args@[k]@,
                0 <= i <= call.args@.len(),
                g_args(g0, args.take(i as int)) == Some((self.gen(), vals@)),
            decreases call.args@.len() - i,
        {
            proof {
                crate::ast::lemma_exprs_size(call.args@, i as int);
                assert(args.take(i + 1).drop_last() =~= args.take(i as int));
                assert(args.take(i + 1).last() == args[i as int]);
            }
            let (v, _) = match self.try_value_of_expr(&call.args[i]) {
                Some(x) => x,
                None => {
                    proof {
                        lemma_args_prefix_fails(g0, args, i + 1);
                    }
                    return None;
                },
            };
            vals.push(v);
            i = i + 1;
        }
        assert(args.take(i as int) =~= args);
        Some(vals)
    }

    /// A call of a function of the module with the runtime as first
    /// argument; gives the call and the kind of result the function has.
    fn call_instr(&mut self, call: &Funcall) -> (r: Option<(usize, Option<ValKind>)>)
        requires
            old(self).wf(),
        ensures
            final(self).wf(),
            final(self).spec_module_name() == old(self).spec_module_name(),
            old(self).code@.len() <= final(self).code@.len(),
            match g_call_instr(old(self).gen(), call_view(*call)) {
                Some((g, id, f)) => r == Some((id, f.ret)) && final(self).gen() == g,
                None => r is None,
            },
        decreases exprs_size(call.args@), 2int,
    {
        let (fid, ret) = match self.find_function(&call.name) {
            Some(x) => x,
            None => {
                return None;
            },
        };
        let rt = match self.get_runtime() {
            Some(v) => v,
            None => {
                return None;
            },
        };
        let vals = match self.call_args(call) {
            Some(v) => v,
            None => {
                return None;
            },
        };
        let mut args: Vec<usize> = Vec::new();
        args.push(rt);
        let mut i: usize = 0;
        while i < vals.len()
            invariant
                0 <= i <= vals@.len(),
                args@ == seq![rt] + vals@.take(i as int),
            decreases vals@.len() - i,
        {
            args.push(vals[i]);
            assert(args@ =~= seq![rt] + vals@.take(i + 1));
            i = i + 1;
        }
        assert(vals@.take(i as int) =~= vals@);
        match self.emit(Instr::Call { func: fid, args, name: call.name.clone() }) {
            Some(id) => Some((id, ret)),
            None => None,
        }
    }

    /// The value of a call; the function must give one.
    fn do_call_expr(&mut self, call: &Funcall) -> (r: Option<(usize, ValKind)>)
        requires
            old(self).wf(),
        ensures
            final(self).wf(),
            final(self).spec_module_name() == old(self).spec_module_name(),
            old(self).code@.len() <= final(self).code@.len(),
            match g_call_expr(old(self).gen(), call_view(*call)) {
                Some((g, v, k)) => r == Some((v, k)) && final(self).gen() == g,
                None => r is None,
            },
        decreases exprs_size(call.args@), 3int,
    {
        match self.call_instr(call) {
            Some((id, Some(k))) => Some((id, k)),
            _ => None,
        }
    }
}


impl Compiler {
    /// The one-bit value of `cond`.
    fn compile_cond(&mut self, cond: &Condition) -> (r: Option<usize>)
        requires
            old(self).wf(),
        ensures
            final(self).wf(),
            final(self).spec_module_name() == old(self).spec_module_name(),
            old(self).code@.len() <= final(self).code@.len(),
            match g_cond(old(self).gen(), cond@) {
                Some((g, v)) => r == Some(v) && final(self).gen() == g,
                None => r is None,
            },
        decreases cond,
    {
        match cond {
            Condition::Compare { left, op, right } => self.try_compile_comp(&**left, *op, &**right),
            Condition::LogicalCompare { left, op, right } => {
                let a = match self.compile_cond(&**left) {
                    Some(a) => a,
                    None => {
                        return None;
                    },
                };
                let b = match self.compile_cond(&**right) {
                    Some(b) => b,
                    None => {
                        return None;
                    },
                };
                match op {
                    LogicalOp::And => self.emit(Instr::And { left: a, right: b }),
                    LogicalOp::Or => self.emit(Instr::Or { left: a, right: b }),
                }
            },
            Condition::OnlyOne(_) => None,
        }
    }

    /// An integer comparison of `left` and `right`.
    fn try_compile_comp(&mut self, left: &Expr, op: CompareOp, right: &Expr) -> (r: Option<usize>)
        requires
            old(self).wf(),
        ensures
            final(self).wf(),
            final(self).spec_module_name() == old(self).spec_module_name(),
            old(self).code@.len() <= final(self).code@.len(),
            match g_comp(old(self).gen(), left@, op, right@) {
                Some((g, v)) => r == Some(v) && final(self).gen() == g,
                None => r is None,
            },
    {
        let (lv, lk) = match self.try_value_of_expr(left) {
            Some(x) => x,
            None => {
                return None;
            },
        };
        if lk != ValKind::Int {
            return None;
        }
        let (rv, rk) = match self.try_value_of_expr(right) {
            Some(x) => x,
            None => {
                return None;
            },
        };
        if rk != ValKind::Int {
            return None;
        }
        self.emit(Instr::IntCompare { op, left: lv, right: rv })
    }

    /// A stack slot for the value `val`, which becomes the storage of the
    /// variable `name` of type `ty`.
    fn create_var(&mut self, name: &String, val: usize, k: ValKind, ty: Type) -> (r: bool)
        requires
            old(self).wf(),
        ensures
            final(self).wf(),
            final(self).spec_module_name() == old(self).spec_module_name(),
            old(self).code@.len() <= final(self).code@.len(),
            match g_create_var(old(self).gen(), name@, val, k, ty) {
                Some(g) => r && final(self).gen() == g,
                None => !r,
            },
    {
        let slot = match self.emit(Instr::Alloca { kind: k, name: name.clone() }) {
            Some(s) => s,
            None => {
                return false;
            },
        };
        match self.emit(Instr::Store { slot, value: val }) {
            Some(_) => {},
            None => {
                return false;
            },
        }
        let ghost names = self.string_interner@;
        let id = self.string_interner.itern(name.clone());
        proof {
            if names.contains(name@) {
                let j = names.index_of(name@);
                assert(names[j] == name@);
                self.string_interner.law_ids_unique(id as int, j);
            }
        }
        self.variables.save(Vardata { ty, ptr: slot }, id);
        true
    }

    /// A declaration; the variable's type follows the kind of its value.
    fn read_stmt(&mut self, var: &Var) -> (r: bool)
        requires
            old(self).wf(),
        ensures
            final(self).wf(),
            final(self).spec_module_name() == old(self).spec_module_name(),
            old(self).code@.len() <= final(self).code@.len(),
            match g_read_stmt(old(self).gen(), var@) {
                Some(g) => r && final(self).gen() == g,
                None => !r,
            },
    {
        let (val, k) = match self.try_value_of_expr(&*var.value) {
            Some(x) => x,
            None => {
                return false;
            },
        };
        match k {
            ValKind::Int => self.create_var(&var.name, val, k, Type::Int),
            ValKind::Float => self.create_var(&var.name, val, k, Type::Float),
            ValKind::Ptr => self.create_var(&var.name, val, k, Type::Str),
            ValKind::Flag => false,
        }
    }

    /// `return expr`.
    fn do_return(&mut self, expr: &Expr) -> (r: bool)
        requires
            old(self).wf(),
        ensures
            final(self).wf(),
            final(self).spec_module_name() == old(self).spec_module_name(),
            old(self).code@.len() <= final(self).code@.len(),
            match g_return(old(self).gen(), expr@) {
                Some(g) => r && final(self).gen() == g,
                None => !r,
            },
    {
        let (v, _) = match self.try_value_of_expr(expr) {
            Some(x) => x,
            None => {
                return false;
            },
        };
        if self.block.is_none() {
            return true;
        }
        self.emit(Instr::Return(Some(v))).is_some()
    }

    /// A call statement.
    fn do_call(&mut self, call: &Funcall) -> (r: bool)
        requires
            old(self).wf(),
        ensures
            final(self).wf(),
            final(self).spec_module_name() == old(self).spec_module_name(),
            old(self).code@.len() <= final(self).code@.len(),
            match g_call(old(self).gen(), call@) {
                Some(g) => r && final(self).gen() == g,
                None => !r,
            },
    {
        self.call_instr(call).is_some()
    }

    /// `name = expr`, when the current function has a variable `name`.
    fn assign_var(&mut self, name: &String, expr: &Expr) -> (r: bool)
        requires
            old(self).wf(),
        ensures
            final(self).wf(),
            final(self).spec_module_name() == old(self).spec_module_name(),
            old(self).code@.len() <= final(self).code@.len(),
            match g_assign(old(self).gen(), name@, expr@) {
                Some(g) => r && final(self).gen() == g,
                None => !r,
            },
    {
        if !self.string_interner.contains(name) {
            return true;
        }
        let id = self.string_interner.lookup(name);
        proof {
            let j = self.string_interner@.index_of(name@);
            self.string_interner.law_ids_unique(id as int, j);
        }
        let (v, _) = match self.try_value_of_expr(expr) {
            Some(x) => x,
            None => {
                return false;
            },
        };
        let var = match self.variables.get_var(id) {
            Some(var) => var,
            None => {
                return false;
            },
        };
        self.emit(Instr::Store { slot: var.ptr, value: v }).is_some()
    }

    /// `break`: a jump to the end of the innermost `while`.
    fn do_break(&mut self) -> (r: bool)
        requires
            old(self).wf(),
        ensures
            final(self).wf(),
            final(self).spec_module_name() == old(self).spec_module_name(),
            old(self).code@.len() <= final(self).code@.len(),
            match g_break(old(self).gen()) {
                Some(g) => r && final(self).gen() == g,
                None => !r,
            },
    {
        let n = self.break_target.len();
        if n == 0 {
            return false;
        }
        let target = self.break_target[n - 1];
        self.emit(Instr::Branch { target }).is_some()
    }

    /// `continue`: a jump to the test of the innermost `while`, or to the head
    /// of the innermost `loop`.
    fn do_continue(&mut self) -> (r: bool)
        requires
            old(self).wf(),
        ensures
            final(self).wf(),
            final(self).spec_module_name() == old(self).spec_module_name(),
            old(self).code@.len() <= final(self).code@.len(),
            match g_continue(old(self).gen()) {
                Some(g) => r && final(self).gen() == g,
                None => !r,
            },
    {
        let n = self.continue_target.len();
        if n == 0 {
            return false;
        }
        let target = self.continue_target[n - 1];
        self.emit(Instr::Branch { target }).is_some()
    }

    /// A jump to `target`, unless the current block ends in a terminator.
    fn close_with(&mut self, target: usize) -> (r: bool)
        requires
            old(self).wf(),
        ensures
            final(self).wf(),
            final(self).spec_module_name() == old(self).spec_module_name(),
            old(self).code@.len() <= final(self).code@.len(),
            match g_close_with(old(self).gen(), target) {
                Some(g) => r && final(self).gen() == g,
                None => !r,
            },
    {
        match self.block {
            None => false,
            Some(b) => if !self.terminated[b] {
                self.emit(Instr::Branch { target }).is_some()
            } else {
                true
            },
        }
    }
}


/// The text `s` as a `String`.
fn label(s: &str) -> (r: String)
    ensures
        r@ == s@,
{
    String::from_str(s)
}

/// Lemma: when some first statements cannot be compiled, all of them cannot.
proof fn lemma_stmts_prefix_fails(g: Gen, s: Seq<StmtView>, k: int)
    requires
        0 <= k <= s.len(),
        g_stmts(g, s.take(k)) is None,
    ensures
        g_stmts(g, s) is None,
    decreases s.len(),
{
    if k == s.len() {
        assert(s.take(k) =~= s);
    } else {
        assert(s.drop_last().take(k) =~= s.take(k));
        lemma_stmts_prefix_fails(g, s.drop_last(), k);
    }
}

/// Lemma: when some first parameters have no kind, the list has none.
proof fn lemma_param_kinds_prefix_fails(s: Seq<ParamView>, k: int)
    requires
        0 <= k <= s.len(),
        param_kinds(s.take(k)) is None,
    ensures
        param_kinds(s) is None,
    decreases s.len(),
{
    if k == s.len() {
        assert(s.take(k) =~= s);
    } else {
        assert(s.drop_last().take(k) =~= s.take(k));
        lemma_param_kinds_prefix_fails(s.drop_last(), k);
    }
}

/// Lemma: when a list of parameters has kinds, each of them has one.
proof fn lemma_param_kinds_each(s: Seq<ParamView>, i: int)
    requires
        0 <= i < s.len(),
        param_kinds(s) is Some,
    ensures
        type_kind(s[i].ty) is Some,
    decreases s.len(),
{
    if i < s.len() - 1 {
        lemma_param_kinds_each(s.drop_last(), i);
    }
}

/// The kinds of value that parameters of the types in `args` hold.
fn param_kinds_of(args: &Vec<Param>) -> (r: Option<Vec<ValKind>>)
    ensures
        match param_kinds(params_view(args@)) {
            Some(ks) => r matches Some(v) && v@ == ks,
            None => r is None,
        },
{
    let ghost ps = params_view(args@);
    let mut kinds: Vec<ValKind> = Vec::new();
    let mut i: usize = 0;
    assert(ps.take(0) =~= seq![]);
    while i < args.len()
        invariant
            ps == params_view(args@),
            ps.len() == args@.len(),
            0 <= i <= args@.len(),
            param_kinds(ps.take(i as int)) == Some(kinds@),
        decreases args@.len() - i,
    {
        assert(ps.take(i + 1).drop_last() =~= ps.take(i as int));
        assert(ps.take(i + 1).last() == ps[i as int]);
        let k = match args[i].ty {
            Type::Int => ValKind::Int,
            Type::Float => ValKind::Float,
            Type::Str => ValKind::Ptr,
            _ => {
                proof {
                    lemma_param_kinds_prefix_fails(ps, i + 1);
                }
                return None;
            },
        };
        kinds.push(k);
        i = i + 1;
    }
    assert(ps.take(i as int) =~= ps);
    Some(kinds)
}

impl Compiler {
    /// Adds a function named `name` to the module, taking values of the
    /// kinds `params` and returning one of kind `ret` (none: `void`). Its
    /// body is not written here: a function of the runtime is declared so.
    pub fn add_function(&mut self, name: String, params: Vec<ValKind>, ret: Option<ValKind>) -> (r:
        usize)
        requires
            old(self).wf(),
        ensures
            final(self).wf(),
            final(self).spec_module_name() == old(self).spec_module_name(),
            (final(self).gen(), r) == g_add_function(old(self).gen(), name@, params@, ret),
    {
        let id = self.code.len();
        let ghost before = self.code@;
        let ghost nv = name@;
        let ghost pv = params@;
        self.funcs.push(FnDecl { name: name.clone(), id, ret });
        self.code.push(Instr::AddFunction { name, params, ret });
        self.terminated.push(false);
        assert(instrs_view(self.code@) =~= instrs_view(before).push(
            InstrView::AddFunction { name: nv, params: pv, ret },
        ));
        assert(fn_decls_view(self.funcs@) =~= old(self).gen().funcs.push(
            FnDeclView { name: nv, id, ret },
        ));
        id
    }

    /// A new function with its `start` block, where the builder is put; the
    /// variables of the function before are forgotten.
    fn begin_function(&mut self, name: String, params: Vec<ValKind>, ret: Option<ValKind>) -> (r:
        usize)
        requires
            old(self).wf(),
        ensures
            final(self).wf(),
            final(self).spec_module_name() == old(self).spec_module_name(),
            old(self).code@.len() <= final(self).code@.len(),
            (final(self).gen(), r) == g_begin_function(old(self).gen(), name@, params@, ret),
    {
        let fid = self.add_function(name, params, ret);
        let start = self.append_block(fid, label("start"));
        proof {
            reveal_strlit("start");
        }
        assert("start"@ =~= start_name());
        self.position_at_end(start);
        self.string_interner = StringInterner::new();
        self.variables = SymbolHash::new();
        fid
    }
}

impl Compiler {
    /// Compiles the statements `stmts` in order; `false` when one of them
    /// cannot be compiled, and the code written so far is then to be
    /// dropped.
    pub fn parse_stmts(&mut self, stmts: &Vec<Stmt>) -> (ok: bool)
        requires
            old(self).wf(),
        ensures
            final(self).wf(),
            final(self).spec_module_name() == old(self).spec_module_name(),
            old(self).gen().code.len() <= final(self).gen().code.len(),
            match g_stmts(old(self).gen(), stmts_view(stmts@)) {
                Some(g) => ok && final(self).gen() == g,
                None => !ok,
            },
        decreases stmts_size(stmts@), 2int,
    {
        let ghost g0 = self.gen();
        let ghost ss = stmts_view(stmts@);
        proof {
            lemma_stmts_view(stmts@);
        }
        let mut i: usize = 0;
        assert(ss.take(0) =~= seq![]);
        while i < stmts.len()
            invariant
                self.wf(),
                self.spec_module_name() == old(self).spec_module_name(),
                old(self).code@.len() <= self.code@.len(),
                g0 == old(self).gen(),
                ss == stmts_view(stmts@),
                ss.len() == stmts@.len(),
                forall|k: int| 0 <= k < stmts@.len() ==> #[trigger] ss[k] == stmt_view(stmts@[k]),
                0 <= i <= stmts@.len(),
                g_stmts(g0, ss.take(i as int)) == Some(self.gen()),
            decreases stmts@.len() - i,
        {
            proof {
                lemma_stmts_size(stmts@, i as int);
                assert(ss.take(i + 1).drop_last() =~= ss.take(i as int));
                assert(ss.take(i + 1).last() == ss[i as int]);
            }
            if !self.parse_stmt(&stmts[i]) {
                proof {
                    lemma_stmts_prefix_fails(g0, ss, i + 1);
                }
                return false;
            }
            i = i + 1;
        }
        assert(ss.take(i as int) =~= ss);
        true
    }

    /// Compiles one statement; `false` when it cannot be compiled.
    pub fn parse_stmt(&mut self, stmt: &Stmt) -> (ok: bool)
        requires
            old(self).wf(),
        ensures
            final(self).wf(),
            final(self).spec_module_name() == old(self).spec_module_name(),
            old(self).gen().code.len() <= final(self).gen().code.len(),
            match g_stmt(old(self).gen(), stmt@) {
                Some(g) => ok && final(self).gen() == g,
                None => !ok,
            },
        decreases stmt_size(*stmt), 1int,
    {
        match stmt {
            Stmt::Int(v) => self.read_stmt(v),
            Stmt::Str(v) => self.read_stmt(v),
            Stmt::Float(v) => self.read_stmt(v),
            Stmt::Main(f) => self.main_create(f),
            Stmt::If(b) => self.if_create(b),
            Stmt::Func(f) => self.func_create(f),
            Stmt::Assign { name, value } => self.assign_var(name, &**value),
            Stmt::Break => self.do_break(),
            Stmt::While(w) => self.do_while(w),
            Stmt::Funcall(c) => self.do_call(c),
            Stmt::ReturnStmt(e) => self.do_return(&**e),
            Stmt::Char(v) => self.read_stmt(v),
            Stmt::Bool(v) => self.read_stmt(v),
            Stmt::Loop(l) => self.do_loop(l),
            Stmt::Continue => self.do_continue(),
        }
    }

    /// `if`, with or without `else`.
    fn if_create(&mut self, b: &IfBlock) -> (ok: bool)
        requires
            old(self).wf(),
        ensures
            final(self).wf(),
            final(self).spec_module_name() == old(self).spec_module_name(),
            old(self).code@.len() <= final(self).code@.len(),
            match g_if(old(self).gen(), stmt_view(Stmt::If(*b))) {
                Some(g) => ok && final(self).gen() == g,
                None => !ok,
            },
        decreases stmt_size(Stmt::If(*b)), 0int,
    {
        let f = match self.current_func {
            Some(f) => f,
            None => {
                return false;
            },
        };
        match &b.elsepart {
            Some(els) => {
                let tb = self.append_block(f, label("if_then"));
                let eb = self.append_block(f, label("if_else"));
                let end = self.append_block(f, label("end"));
                let c = match self.compile_cond(&b.cond) {
                    Some(c) => c,
                    None => {
                        return false;
                    },
                };
                if self.emit(Instr::CondBranch { cond: c, then_block: tb, else_block: eb }).is_none() {
                    return false;
                }
                self.position_at_end(tb);
                if !self.parse_stmts(&b.code) {
                    return false;
                }
                if self.emit(Instr::Branch { target: end }).is_none() {
                    return false;
                }
                self.position_at_end(eb);
                self.parse_stmts(els)
            },
            None => {
                let tb = self.append_block(f, label("if_then"));
                let end = self.append_block(f, label("if_end"));
                let c = match self.compile_cond(&b.cond) {
                    Some(c) => c,
                    None => {
                        return false;
                    },
                };
                if self.emit(Instr::CondBranch { cond: c, then_block: tb, else_block: end }).is_none() {
                    return false;
                }
                self.position_at_end(tb);
                if !self.parse_stmts(&b.code) {
                    return false;
                }
                if !self.close_with(end) {
                    return false;
                }
                self.position_at_end(end);
                true
            },
        }
    }

    /// `while`.
    fn do_while(&mut self, w: &WhileBlock) -> (ok: bool)
        requires
            old(self).wf(),
        ensures
            final(self).wf(),
            final(self).spec_module_name() == old(self).spec_module_name(),
            old(self).code@.len() <= final(self).code@.len(),
            match g_while(old(self).gen(), stmt_view(Stmt::While(*w))) {
                Some(g) => ok && final(self).gen() == g,
                None => !ok,
            },
        decreases stmt_size(Stmt::While(*w)), 0int,
    {
        let f = match self.current_func {
            Some(f) => f,
            None => {
                return false;
            },
        };
        let cb = self.append_block(f, label("while_cond"));
        let body = self.append_block(f, label("while_body"));
        let end = self.append_block(f, label("while_end"));
        if self.emit(Instr::Branch { target: cb }).is_none() {
            return false;
        }
        self.position_at_end(cb);
        let c = match self.compile_cond(&w.cond) {
            Some(c) => c,
            None => {
                return false;
            },
        };
        if self.emit(Instr::CondBranch { cond: c, then_block: body, else_block: end }).is_none() {
            return false;
        }
        self.position_at_end(body);
        self.enter_loop(end, cb);
        if !self.parse_stmts(&w.code) {
            return false;
        }
        if !self.close_with(cb) {
            return false;
        }
        self.leave_loop();
        self.position_at_end(end);
        true
    }

    /// `loop`.
    fn do_loop(&mut self, l: &Loop) -> (ok: bool)
        requires
            old(self).wf(),
        ensures
            final(self).wf(),
            final(self).spec_module_name() == old(self).spec_module_name(),
            old(self).code@.len() <= final(self).code@.len(),
            match g_loop(old(self).gen(), stmt_view(Stmt::Loop(*l))) {
                Some(g) => ok && final(self).gen() == g,
                None => !ok,
            },
        decreases stmt_size(Stmt::Loop(*l)), 0int,
    {
        let f = match self.current_func {
            Some(f) => f,
            None => {
                return false;
            },
        };
        let head = self.append_block(f, label("loop"));
        let end = self.append_block(f, label("loop_end"));
        if self.emit(Instr::Branch { target: head }).is_none() {
            return false;
        }
        self.position_at_end(head);
        self.enter_loop(end, head);
        if !self.parse_stmts(&l.code) {
            return false;
        }
        if !self.close_with(head) {
            return false;
        }
        self.leave_loop();
        self.position_at_end(end);
        true
    }

    /// Enters the body of a loop: `break` jumps to `end`, `continue` to
    /// `next`.
    fn enter_loop(&mut self, end: usize, next: usize)
        requires
            old(self).wf(),
        ensures
            final(self).wf(),
            final(self).spec_module_name() == old(self).spec_module_name(),
            final(self).code@.len() == old(self).code@.len(),
            final(self).gen() == enter_loop(old(self).gen(), end, next),
    {
        self.break_target.push(end);
        self.continue_target.push(next);
    }

    /// Leaves the body of a loop.
    fn leave_loop(&mut self)
        requires
            old(self).wf(),
        ensures
            final(self).wf(),
            final(self).spec_module_name() == old(self).spec_module_name(),
            final(self).code@.len() == old(self).code@.len(),
            final(self).gen() == leave_loop(old(self).gen()),
    {
        let _ = self.break_target.pop();
        let _ = self.continue_target.pop();
        assert(self.break_target@ =~= drop_top(old(self).break_target@));
        assert(self.continue_target@ =~= drop_top(old(self).continue_target@));
    }

    /// `main`: a function that takes the runtime and returns nothing.
    fn main_create(&mut self, f: &Func) -> (ok: bool)
        requires
            old(self).wf(),
        ensures
            final(self).wf(),
            final(self).spec_module_name() == old(self).spec_module_name(),
            old(self).code@.len() <= final(self).code@.len(),
            match g_main(old(self).gen(), stmt_view(Stmt::Main(*f))) {
                Some(g) => ok && final(self).gen() == g,
                None => !ok,
            },
        decreases stmt_size(Stmt::Main(*f)), 0int,
    {
        let mut params: Vec<ValKind> = Vec::new();
        params.push(ValKind::Ptr);
        assert(params@ =~= seq![ValKind::Ptr]);
        proof {
            reveal_strlit("main");
        }
        assert("main"@ =~= main_fn_name());
        let fid = self.begin_function(label("main"), params, None);
        self.current_func = Some(fid);
        if !self.parse_stmts(&f.code) {
            return false;
        }
        if self.block.is_none() {
            return true;
        }
        self.emit(Instr::Return(None)).is_some()
    }

    /// A function definition.
    fn func_create(&mut self, f: &Func) -> (ok: bool)
        requires
            old(self).wf(),
        ensures
            final(self).wf(),
            final(self).spec_module_name() == old(self).spec_module_name(),
            old(self).code@.len() <= final(self).code@.len(),
            match g_func(old(self).gen(), stmt_view(Stmt::Func(*f))) {
                Some(g) => ok && final(self).gen() == g,
                None => !ok,
            },
        decreases stmt_size(Stmt::Func(*f)), 0int,
    {
        let ghost args = params_view(f.args@);
        let mut kinds = match param_kinds_of(&f.args) {
            Some(k) => k,
            None => {
                return false;
            },
        };
        let ret = match f.ty {
            None => None,
            Some(FunType::Int) => Some(ValKind::Int),
            Some(FunType::Str) => Some(ValKind::Ptr),
            Some(FunType::Float) => Some(ValKind::Float),
            _ => {
                return false;
            },
        };
        let mut params: Vec<ValKind> = Vec::new();
        params.push(ValKind::Ptr);
        params.append(&mut kinds);
        let fid = self.begin_function(f.name.clone(), params, ret);
        let ghost g1 = self.gen();
        let mut j: usize = 0;
        while j < f.args.len()
            invariant
                self.wf(),
                self.spec_module_name() == old(self).spec_module_name(),
                old(self).code@.len() <= self.code@.len(),
                args == params_view(f.args@),
                args.len() == f.args@.len(),
                0 <= j <= f.args@.len(),
                g_params(g1, fid, args, 0) == g_params(self.gen(), fid, args, j as int),
                param_kinds(args) is Some,
                self.block is Some,
            decreases f.args@.len() - j,
        {
            let p = &f.args[j];
            assert(args[j as int] == p@);
            let v = match self.emit(Instr::Param { func: fid, index: j + 1, name: p.name.clone() }) {
                Some(v) => v,
                None => {
                    return false;
                },
            };
            let k = match p.ty {
                Type::Int => ValKind::Int,
                Type::Float => ValKind::Float,
                Type::Str => ValKind::Ptr,
                _ => {
                    proof {
                        lemma_param_kinds_each(args, j as int);
                    }
                    return false;
                },
            };
            let ghost names = self.string_interner@;
            let id = self.string_interner.itern(p.name.clone());
            proof {
                if names.contains(p.name@) {
                    let jj = names.index_of(p.name@);
                    self.string_interner.law_ids_unique(id as int, jj);
                }
            }
            let slot = match self.emit(Instr::Alloca { kind: k, name: p.name.clone() }) {
                Some(s) => s,
                None => {
                    return false;
                },
            };
            if self.emit(Instr::Store { slot, value: v }).is_none() {
                return false;
            }
            self.variables.save(Vardata { ty: p.ty, ptr: slot }, id);
            j = j + 1;
        }
        self.current_func = Some(fid);
        if !self.parse_stmts(&f.code) {
            return false;
        }
        if f.ty.is_none() {
            self.emit(Instr::Return(None)).is_some()
        } else {
            true
        }
    }
}

impl Compiler {
    /// The value of the arithmetic expression `expr`, computed at the
    /// builder's block, with its kind; its leaves must be numbers and stored
    /// variables (see [`Compiler::try_binary`], which tells where they are not).
    pub fn binary(&mut self, expr: &Expr) -> (r: (usize, ValKind))
        requires
            old(self).wf(),
            g_binary(old(self).gen(), expr@) is Some,
        ensures
            final(self).wf(),
            final(self).spec_module_name() == old(self).spec_module_name(),
            g_binary(old(self).gen(), expr@) matches Some((g, v, k)) && r == (v, k) && final(self).gen()
                == g,
    {
        match self.try_binary(expr) {
            Some(x) => x,
            None => (0, ValKind::Int),
        }
    }

    /// The value of `expr`, computed at the builder's block, with its kind;
    /// `expr` must have one (a number, a text, a stored variable, arithmetic,
    /// or a call of a function of the module that gives a value).
    pub fn get_value_of_expr(&mut self, expr: &Expr) -> (r: (usize, ValKind))
        requires
            old(self).wf(),
            g_value(old(self).gen(), expr@) is Some,
        ensures
            final(self).wf(),
            final(self).spec_module_name() == old(self).spec_module_name(),
            g_value(old(self).gen(), expr@) matches Some((g, v, k)) && r == (v, k) && final(self).gen()
                == g,
    {
        match self.try_value_of_expr(expr) {
            Some(x) => x,
            None => (0, ValKind::Int),
        }
    }

    /// The signed comparison `op` of the integers `left` and `right`; both
    /// must have integer values.
    pub fn compile_comp(&mut self, left: &Expr, op: CompareOp, right: &Expr) -> (r: usize)
        requires
            old(self).wf(),
            g_comp(old(self).gen(), left@, op, right@) is Some,
        ensures
            final(self).wf(),
            final(self).spec_module_name() == old(self).spec_module_name(),
            g_comp(old(self).gen(), left@, op, right@) matches Some((g, v)) && r == v && final(self).gen()
                == g,
    {
        match self.try_compile_comp(left, op, right) {
            Some(v) => v,
            None => 0,
        }
    }
}
} // verus!
