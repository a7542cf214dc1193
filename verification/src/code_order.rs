//! What the code generator keeps of the order of its instructions: each one
//! refers only to values, blocks and functions that instructions before it
//! made, as an LLVM builder needs.
use crate::ast::{CallView, CondView, ExprView, ParamView, StmtView, VarView};
use crate::code_gen::{
    append_block, emit, find_fn, g_add_function, g_args, g_arith, g_begin_function, g_binary,
    g_call_expr, g_call_instr, g_close_with, g_comp, g_cond, g_create_var, g_func, g_if,
    g_load_var, g_main, g_params, g_read_stmt, g_runtime, g_stmt, g_stmts, g_value, g_while,
    g_assign, g_break, g_continue, g_loop, g_return, enter_loop, leave_loop,
    itern_names, main_fn_name, param_kinds, position, ret_kind, start_name, tmp_name, type_kind,
    var_of, FnDeclView, Gen, InstrView, ValKind,
};
use crate::symbols::Vardata;
use vstd::prelude::*;

verus! {

/// Every value, block or function that `i` uses was made by an instruction
/// numbered below `n`.
pub open spec fn refs_before(i: InstrView, n: int) -> bool {
    match i {
        InstrView::AppendBlock { func, .. } => func < n,
        InstrView::PositionAtEnd { block } => block < n,
        InstrView::Param { func, .. } => func < n,
        InstrView::Store { slot, value } => slot < n && value < n,
        InstrView::Load { slot, .. } => slot < n,
        InstrView::IntToFloat { value } => value < n,
        InstrView::IntBinary { left, right, .. } => left < n && right < n,
        InstrView::FloatBinary { left, right, .. } => left < n && right < n,
        InstrView::IntCompare { left, right, .. } => left < n && right < n,
        InstrView::And { left, right } => left < n && right < n,
        InstrView::Or { left, right } => left < n && right < n,
        InstrView::Call { func, args, .. } => func < n && forall|j: int|
            0 <= j < args.len() ==> #[trigger] args[j] < n,
        InstrView::Return(v) => v matches Some(x) ==> x < n,
        InstrView::Branch { target } => target < n,
        InstrView::CondBranch { cond, then_block, else_block } => cond < n && then_block < n
            && else_block < n,
        _ => true,
    }
}

/// Each instruction of `code` refers only to instructions before it.
pub open spec fn code_closed(code: Seq<InstrView>) -> bool {
    forall|k: int| 0 <= k < code.len() ==> refs_before(#[trigger] code[k], k)
}

/// The code is closed, and whatever the generator keeps (the current block
/// and function, the `break` and `continue` targets, the variables' slots, the functions)
/// names an instruction already written.
pub open spec fn gen_ok(g: Gen) -> bool {
    let n = g.code.len();
    &&& code_closed(g.code)
    &&& g.terminated.len() == n
    &&& g.block matches Some(b) ==> b < n
    &&& g.current_func matches Some(f) ==> f < n
    &&& forall|j: int| 0 <= j < g.break_target.len() ==> #[trigger] g.break_target[j] < n
    &&& forall|j: int| 0 <= j < g.continue_target.len() ==> #[trigger] g.continue_target[j] < n
    &&& forall|id: usize| #[trigger] g.vars.contains_key(id) ==> g.vars[id].ptr < n
    &&& forall|j: int| 0 <= j < g.funcs.len() ==> #[trigger] g.funcs[j].id < n
}

/// The instructions can be numbered by `usize`.
pub open spec fn fits(g: Gen) -> bool {
    g.code.len() <= usize::MAX
}

/// The generator is in order wherever its instructions can be numbered.
pub open spec fn in_order(g: Gen) -> bool {
    fits(g) ==> gen_ok(g)
}

/// Instruction `x` has been written.
pub open spec fn made(x: int, g: Gen) -> bool {
    fits(g) ==> x < g.code.len()
}

proof fn lemma_emit(g: Gen, i: InstrView)
    requires
        in_order(g),
        fits(g) ==> refs_before(i, g.code.len() as int),
    ensures
        emit(g, i) matches Some((g1, id)) ==> in_order(g1) && made(id as int, g1) && g1.code.len()
            == g.code.len() + 1,
{
    if let Some((g1, id)) = emit(g, i) {
        if fits(g1) {
        assert forall|k: int| 0 <= k < g1.code.len() implies refs_before(
            #[trigger] g1.code[k],
            k,
        ) by {
            if k < g.code.len() {
                assert(g1.code[k] == g.code[k]);
            }
        }
        }
    }
}

proof fn lemma_position(g: Gen, b: usize)
    requires
        in_order(g),
        made(b as int, g),
    ensures
        in_order(position(g, b)),
        position(g, b).code.len() == g.code.len() + 1,
{
    let g1 = position(g, b);
    if fits(g1) {
        assert forall|k: int| 0 <= k < g1.code.len() implies refs_before(#[trigger] g1.code[k], k) by {
            if k < g.code.len() {
                assert(g1.code[k] == g.code[k]);
            }
        }
    }
}

proof fn lemma_append_block(g: Gen, f: usize, name: Seq<char>)
    requires
        in_order(g),
        made(f as int, g),
    ensures
        in_order(append_block(g, f, name).0),
        made(append_block(g, f, name).1 as int, append_block(g, f, name).0),
        append_block(g, f, name).0.code.len() == g.code.len() + 1,
        append_block(g, f, name).0.block == g.block,
        append_block(g, f, name).0.current_func == g.current_func,
{
    let g1 = append_block(g, f, name).0;
    if fits(g1) {
        assert forall|k: int| 0 <= k < g1.code.len() implies refs_before(#[trigger] g1.code[k], k) by {
            if k < g.code.len() {
                assert(g1.code[k] == g.code[k]);
            }
        }
    }
}

proof fn lemma_add_function(g: Gen, name: Seq<char>, params: Seq<ValKind>, ret: Option<ValKind>)
    requires
        in_order(g),
    ensures
        in_order(g_add_function(g, name, params, ret).0),
        made(g_add_function(g, name, params, ret).1 as int, g_add_function(g, name, params, ret).0),
        g_add_function(g, name, params, ret).0.code.len() == g.code.len() + 1,
{
    let g1 = g_add_function(g, name, params, ret).0;
    if fits(g1) {
        assert forall|k: int| 0 <= k < g1.code.len() implies refs_before(#[trigger] g1.code[k], k) by {
            if k < g.code.len() {
                assert(g1.code[k] == g.code[k]);
            }
        }
        assert forall|j: int| 0 <= j < g1.funcs.len() implies #[trigger] g1.funcs[j].id < g1.code.len() by {
            if j < g.funcs.len() {
                assert(g1.funcs[j] == g.funcs[j]);
            }
        }
    }
}

/// A value computed at `g`: the generator stays in order, and the value was
/// made by an instruction it wrote.
pub open spec fn value_ok(g: Gen, r: Option<(Gen, usize, ValKind)>) -> bool {
    r matches Some((g1, v, _)) ==> in_order(g1) && made(v as int, g1) && g.code.len() <= g1.code.len()
        && g1.block == g.block && g1.current_func == g.current_func && g1.funcs == g.funcs
        && g1.vars == g.vars && g1.names == g.names && g1.break_target == g.break_target
}

/// Like [`value_ok`], for a result without a kind.
pub open spec fn result_ok(g: Gen, r: Option<(Gen, usize)>) -> bool {
    r matches Some((g1, v)) ==> in_order(g1) && made(v as int, g1) && g.code.len() <= g1.code.len()
        && g1.block == g.block && g1.current_func == g.current_func && g1.funcs == g.funcs
        && g1.vars == g.vars && g1.names == g.names && g1.break_target == g.break_target
}

proof fn lemma_load_var(g: Gen, name: Seq<char>)
    requires
        in_order(g),
    ensures
        value_ok(g, g_load_var(g, name)),
{
    if let Some(v) = var_of(g, name) {
        if let Some(k) = type_kind(v.ty) {
            lemma_emit(g, InstrView::Load { kind: k, slot: v.ptr, name: tmp_name() });
        }
    }
}

proof fn lemma_arith(g: Gen, op: crate::ast::BinaryOp, l: usize, lk: ValKind, r: usize, rk: ValKind)
    requires
        in_order(g),
        made(l as int, g),
        made(r as int, g),
    ensures
        value_ok(g, g_arith(g, op, l, lk, r, rk)),
{
    match (lk, rk) {
        (ValKind::Float, ValKind::Int) => {
            lemma_emit(g, InstrView::IntToFloat { value: r });
            if let Some((g1, c)) = emit(g, InstrView::IntToFloat { value: r }) {
                lemma_emit(g1, InstrView::FloatBinary { op, left: l, right: c });
            }
        },
        (ValKind::Float, ValKind::Float) => {
            lemma_emit(g, InstrView::FloatBinary { op, left: l, right: r });
        },
        (ValKind::Int, ValKind::Int) => {
            lemma_emit(g, InstrView::IntBinary { op, left: l, right: r });
        },
        (ValKind::Int, ValKind::Float) => {
            lemma_emit(g, InstrView::IntToFloat { value: l });
            if let Some((g1, c)) = emit(g, InstrView::IntToFloat { value: l }) {
                lemma_emit(g1, InstrView::FloatBinary { op, left: c, right: r });
            }
        },
        _ => {},
    }
}

proof fn lemma_binary(g: Gen, e: ExprView)
    requires
        in_order(g),
    ensures
        value_ok(g, g_binary(g, e)),
    decreases e,
{
    match e {
        ExprView::Num(n) => lemma_emit(g, InstrView::ConstInt(n)),
        ExprView::Float(t) => lemma_emit(g, InstrView::ConstFloat(t)),
        ExprView::Id(name) => {
            if let Some(v) = var_of(g, name) {
                let k = if v.ty == crate::ast::Type::Float {
                    ValKind::Float
                } else {
                    ValKind::Int
                };
                lemma_emit(g, InstrView::Load { kind: k, slot: v.ptr, name });
            }
        },
        ExprView::Binary(l, op, r) => {
            lemma_binary(g, *l);
            if let Some((g1, lv, lk)) = g_binary(g, *l) {
                lemma_binary(g1, *r);
                if let Some((g2, rv, rk)) = g_binary(g1, *r) {
                    lemma_arith(g2, op, lv, lk, rv, rk);
                }
            }
        },
        _ => {},
    }
}

proof fn lemma_runtime(g: Gen)
    requires
        in_order(g),
    ensures
        result_ok(g, g_runtime(g)),
{
    if let Some(f) = g.current_func {
        lemma_emit(g, InstrView::Param { func: f, index: 0, name: seq![] });
    }
}

proof fn lemma_find_fn(fs: Seq<FnDeclView>, name: Seq<char>, n: int)
    requires
        forall|j: int| 0 <= j < fs.len() ==> #[trigger] fs[j].id < n,
    ensures
        find_fn(fs, name) matches Some(f) ==> f.id < n,
    decreases fs.len(),
{
    if fs.len() > 0 && fs[0].name != name {
        assert forall|j: int| 0 <= j < fs.drop_first().len() implies #[trigger] fs.drop_first()[j].id
            < n by {
            assert(fs.drop_first()[j] == fs[j + 1]);
        }
        lemma_find_fn(fs.drop_first(), name, n);
    }
}

/// The values of some arguments: the generator stays in order and each
/// value was made by an instruction it wrote.
pub open spec fn args_ok(g: Gen, r: Option<(Gen, Seq<usize>)>) -> bool {
    r matches Some((g1, vs)) ==> in_order(g1) && g.code.len() <= g1.code.len() && (forall|j: int|
        0 <= j < vs.len() ==> made(#[trigger] vs[j] as int, g1)) && g1.block == g.block
        && g1.current_func == g.current_func && g1.funcs == g.funcs && g1.vars == g.vars
        && g1.names == g.names && g1.break_target == g.break_target
}

proof fn lemma_value(g: Gen, e: ExprView)
    requires
        in_order(g),
    ensures
        value_ok(g, g_value(g, e)),
    decreases e,
{
    match e {
        ExprView::Id(name) => lemma_load_var(g, name),
        ExprView::Float(t) => lemma_emit(g, InstrView::ConstFloat(t)),
        ExprView::Num(n) => lemma_emit(g, InstrView::ConstInt(n)),
        ExprView::Str(t) => lemma_emit(g, InstrView::GlobalString(t)),
        ExprView::Binary(_, _, _) => lemma_binary(g, e),
        ExprView::Func(c) => lemma_call(g, c),
        _ => {},
    }
}

proof fn lemma_args(g: Gen, args: Seq<ExprView>)
    requires
        in_order(g),
    ensures
        args_ok(g, g_args(g, args)),
    decreases args,
{
    if args.len() > 0 {
        lemma_args(g, args.drop_last());
        if let Some((g1, vs)) = g_args(g, args.drop_last()) {
            lemma_value(g1, args.last());
        }
    }
}

proof fn lemma_call(g: Gen, c: CallView)
    requires
        in_order(g),
    ensures
        match g_call_instr(g, c) {
            Some((g3, id, f)) => in_order(g3) && made(id as int, g3) && g.code.len() <= g3.code.len()
                && g3.block == g.block && g3.current_func == g.current_func && g3.funcs == g.funcs
                && g3.vars == g.vars && g3.names == g.names && g3.break_target == g.break_target,
            None => true,
        },
        value_ok(g, g_call_expr(g, c)),
    decreases c,
{
    if let Some(f) = find_fn(g.funcs, c.name) {
        assert(made(f.id as int, g)) by {
            if fits(g) {
                lemma_find_fn(g.funcs, c.name, g.code.len() as int);
            }
        }
        lemma_runtime(g);
        if let Some((g1, rt)) = g_runtime(g) {
            lemma_args(g1, c.args);
            if let Some((g2, vs)) = g_args(g1, c.args) {
                let i = InstrView::Call { func: f.id, args: seq![rt] + vs, name: c.name };
                assert(fits(g2) ==> refs_before(i, g2.code.len() as int)) by {
                    if fits(g2) {
                    assert forall|j: int| 0 <= j < (seq![rt] + vs).len() implies #[trigger] (seq![rt]
                        + vs)[j] < g2.code.len() by {
                        if j > 0 {
                            assert((seq![rt] + vs)[j] == vs[j - 1]);
                        }
                    }
                    }
                }
                lemma_emit(g2, i);
            }
        }
    }
}

proof fn lemma_comp(g: Gen, l: ExprView, op: crate::ast::CompareOp, r: ExprView)
    requires
        in_order(g),
    ensures
        result_ok(g, g_comp(g, l, op, r)),
{
    lemma_value(g, l);
    if let Some((g1, lv, lk)) = g_value(g, l) {
        lemma_value(g1, r);
        if let Some((g2, rv, rk)) = g_value(g1, r) {
            lemma_emit(g2, InstrView::IntCompare { op, left: lv, right: rv });
        }
    }
}

proof fn lemma_cond(g: Gen, c: CondView)
    requires
        in_order(g),
    ensures
        result_ok(g, g_cond(g, c)),
    decreases c,
{
    match c {
        CondView::Compare { left, op, right } => lemma_comp(g, left, op, right),
        CondView::LogicalCompare { left, op, right } => {
            lemma_cond(g, *left);
            if let Some((g1, a)) = g_cond(g, *left) {
                lemma_cond(g1, *right);
                if let Some((g2, b)) = g_cond(g1, *right) {
                    lemma_emit(g2, InstrView::And { left: a, right: b });
                    lemma_emit(g2, InstrView::Or { left: a, right: b });
                }
            }
        },
        CondView::OnlyOne(_) => {},
    }
}

/// A statement compiled at `g`: the generator stays in order.
pub open spec fn stmt_ok(g: Gen, r: Option<Gen>) -> bool {
    r matches Some(g1) ==> in_order(g1) && g.code.len() <= g1.code.len()
}

proof fn lemma_create_var(g: Gen, name: Seq<char>, val: usize, k: ValKind, ty: crate::ast::Type)
    requires
        in_order(g),
        made(val as int, g),
    ensures
        stmt_ok(g, g_create_var(g, name, val, k, ty)),
{
    lemma_emit(g, InstrView::Alloca { kind: k, name });
    if let Some((g1, slot)) = emit(g, InstrView::Alloca { kind: k, name }) {
        lemma_emit(g1, InstrView::Store { slot, value: val });
    }
}

proof fn lemma_read_stmt(g: Gen, v: VarView)
    requires
        in_order(g),
    ensures
        stmt_ok(g, g_read_stmt(g, v)),
{
    lemma_value(g, v.value);
    if let Some((g1, val, k)) = g_value(g, v.value) {
        lemma_create_var(g1, v.name, val, k, crate::ast::Type::Int);
        lemma_create_var(g1, v.name, val, k, crate::ast::Type::Float);
        lemma_create_var(g1, v.name, val, k, crate::ast::Type::Str);
    }
}

proof fn lemma_close_with(g: Gen, target: usize)
    requires
        in_order(g),
        made(target as int, g),
    ensures
        match g_close_with(g, target) {
            Some(g1) => in_order(g1) && g.code.len() <= g1.code.len() && g1.block == g.block
                && g1.current_func == g.current_func && g1.break_target == g.break_target,
            None => true,
        },
{
    lemma_emit(g, InstrView::Branch { target });
}

proof fn lemma_params(g: Gen, f: usize, args: Seq<ParamView>, i: int)
    requires
        in_order(g),
        made(f as int, g),
    ensures
        match g_params(g, f, args, i) {
            Some(g1) => in_order(g1) && g.code.len() <= g1.code.len(),
            None => true,
        },
    decreases args.len() - i,
{
    if 0 <= i < args.len() {
        let p = args[i];
        let pi = InstrView::Param { func: f, index: (i + 1) as usize, name: p.name };
        lemma_emit(g, pi);
        if let (Some((g1, v)), Some(k)) = (emit(g, pi), type_kind(p.ty)) {
            let (ns, id) = itern_names(g1.names, p.name);
            let g2 = Gen { names: ns, ..g1 };
            lemma_emit(g2, InstrView::Alloca { kind: k, name: p.name });
            if let Some((g3, slot)) = emit(g2, InstrView::Alloca { kind: k, name: p.name }) {
                lemma_emit(g3, InstrView::Store { slot, value: v });
                if let Some((g4, _)) = emit(g3, InstrView::Store { slot, value: v }) {
                    lemma_params(
                        Gen { vars: g4.vars.insert(id, Vardata { ty: p.ty, ptr: slot }), ..g4 },
                        f,
                        args,
                        i + 1,
                    );
                }
            }
        }
    }
}

proof fn lemma_begin_function(g: Gen, name: Seq<char>, params: Seq<ValKind>, ret: Option<ValKind>)
    requires
        in_order(g),
    ensures
        in_order(g_begin_function(g, name, params, ret).0),
        made(g_begin_function(g, name, params, ret).1 as int, g_begin_function(g, name, params, ret).0),
        g.code.len() <= g_begin_function(g, name, params, ret).0.code.len(),
{
    lemma_add_function(g, name, params, ret);
    let (g1, fid) = g_add_function(g, name, params, ret);
    lemma_append_block(g1, fid, start_name());
    let (g2, start) = append_block(g1, fid, start_name());
    lemma_position(g2, start);
}

proof fn lemma_stmts(g: Gen, ss: Seq<StmtView>)
    requires
        in_order(g),
    ensures
        stmt_ok(g, g_stmts(g, ss)),
    decreases ss, 2int,
{
    if ss.len() > 0 {
        lemma_stmts(g, ss.drop_last());
        if let Some(g1) = g_stmts(g, ss.drop_last()) {
            lemma_stmt(g1, ss.last());
        }
    }
}

proof fn lemma_stmt(g: Gen, s: StmtView)
    requires
        in_order(g),
    ensures
        stmt_ok(g, g_stmt(g, s)),
    decreases s, 1int,
{
    match s {
        StmtView::Int(v) => lemma_read_stmt(g, v),
        StmtView::Str(v) => lemma_read_stmt(g, v),
        StmtView::Float(v) => lemma_read_stmt(g, v),
        StmtView::Main(_) => lemma_main(g, s),
        StmtView::If { .. } => lemma_if(g, s),
        StmtView::Func(_) => lemma_func(g, s),
        StmtView::Char(v) => lemma_read_stmt(g, v),
        StmtView::Bool(v) => lemma_read_stmt(g, v),
        StmtView::Assign { name, value } => lemma_assign(g, name, value),
        StmtView::Break => lemma_jumps(g),
        StmtView::Continue => lemma_jumps(g),
        StmtView::While { .. } => lemma_while(g, s),
        StmtView::Loop { .. } => lemma_loop(g, s),
        StmtView::Funcall(c) => lemma_call(g, c),
        StmtView::ReturnStmt(e) => lemma_return(g, e),
    }
}

proof fn lemma_if(g: Gen, s: StmtView)
    requires
        in_order(g),
    ensures
        stmt_ok(g, g_if(g, s)),
    decreases s, 0int,
{
    if let StmtView::If { cond, code, locals, elsepart } = s {
        if let Some(f) = g.current_func {
            match elsepart {
                Some(els) => {
                    lemma_append_block(g, f, "if_then"@);
                    let (g1, tb) = append_block(g, f, "if_then"@);
                    lemma_append_block(g1, f, "if_else"@);
                    let (g2, eb) = append_block(g1, f, "if_else"@);
                    lemma_append_block(g2, f, "end"@);
                    let (g3, end) = append_block(g2, f, "end"@);
                    lemma_cond(g3, cond);
                    if let Some((g4, c)) = g_cond(g3, cond) {
                        let cb = InstrView::CondBranch { cond: c, then_block: tb, else_block: eb };
                        lemma_emit(g4, cb);
                        if let Some((g5, _)) = emit(g4, cb) {
                            lemma_position(g5, tb);
                            lemma_stmts(position(g5, tb), code);
                            if let Some(g7) = g_stmts(position(g5, tb), code) {
                                lemma_emit(g7, InstrView::Branch { target: end });
                                if let Some((g8, _)) = emit(g7, InstrView::Branch { target: end }) {
                                    lemma_position(g8, eb);
                                    lemma_stmts(position(g8, eb), els);
                                }
                            }
                        }
                    }
                },
                None => {
                    lemma_append_block(g, f, "if_then"@);
                    let (g1, tb) = append_block(g, f, "if_then"@);
                    lemma_append_block(g1, f, "if_end"@);
                    let (g2, end) = append_block(g1, f, "if_end"@);
                    lemma_cond(g2, cond);
                    if let Some((g3, c)) = g_cond(g2, cond) {
                        let cb = InstrView::CondBranch { cond: c, then_block: tb, else_block: end };
                        lemma_emit(g3, cb);
                        if let Some((g4, _)) = emit(g3, cb) {
                            lemma_position(g4, tb);
                            lemma_stmts(position(g4, tb), code);
                            if let Some(g6) = g_stmts(position(g4, tb), code) {
                                lemma_close_with(g6, end);
                                if let Some(g7) = g_close_with(g6, end) {
                                    lemma_position(g7, end);
                                }
                            }
                        }
                    }
                },
            }
        }
    }
}

proof fn lemma_while(g: Gen, s: StmtView)
    requires
        in_order(g),
    ensures
        stmt_ok(g, g_while(g, s)),
    decreases s, 0int,
{
    if let StmtView::While { cond, code, locals } = s {
        if let Some(f) = g.current_func {
            lemma_append_block(g, f, "while_cond"@);
            let (g1, cb) = append_block(g, f, "while_cond"@);
            lemma_append_block(g1, f, "while_body"@);
            let (g2, body) = append_block(g1, f, "while_body"@);
            lemma_append_block(g2, f, "while_end"@);
            let (g3, end) = append_block(g2, f, "while_end"@);
            lemma_emit(g3, InstrView::Branch { target: cb });
            if let Some((g4, _)) = emit(g3, InstrView::Branch { target: cb }) {
                lemma_position(g4, cb);
                lemma_cond(position(g4, cb), cond);
                if let Some((g6, c)) = g_cond(position(g4, cb), cond) {
                    let br = InstrView::CondBranch { cond: c, then_block: body, else_block: end };
                    lemma_emit(g6, br);
                    if let Some((g7, _)) = emit(g6, br) {
                        lemma_position(g7, body);
                        let g9 = enter_loop(position(g7, body), end, cb);
                        lemma_enter_loop(position(g7, body), end, cb);
                        lemma_stmts(g9, code);
                        if let Some(g10) = g_stmts(g9, code) {
                            lemma_close_with(g10, cb);
                            if let Some(g11) = g_close_with(g10, cb) {
                                lemma_leave_loop(g11);
                                lemma_position(leave_loop(g11), end);
                            }
                        }
                    }
                }
            }
        }
    }
}

proof fn lemma_enter_loop(g: Gen, end: usize, next: usize)
    requires
        in_order(g),
        made(end as int, g),
        made(next as int, g),
    ensures
        in_order(enter_loop(g, end, next)),
        enter_loop(g, end, next).code == g.code,
{
    let g1 = enter_loop(g, end, next);
    if fits(g1) {
        assert forall|j: int| 0 <= j < g1.break_target.len() implies #[trigger] g1.break_target[j]
            < g1.code.len() by {
            if j < g.break_target.len() {
                assert(g1.break_target[j] == g.break_target[j]);
            }
        }
        assert forall|j: int| 0 <= j < g1.continue_target.len() implies
            #[trigger] g1.continue_target[j] < g1.code.len() by {
            if j < g.continue_target.len() {
                assert(g1.continue_target[j] == g.continue_target[j]);
            }
        }
    }
}

proof fn lemma_leave_loop(g: Gen)
    requires
        in_order(g),
    ensures
        in_order(leave_loop(g)),
        leave_loop(g).code == g.code,
        leave_loop(g).block == g.block,
{
    let g1 = leave_loop(g);
    if fits(g1) {
        assert forall|j: int| 0 <= j < g1.break_target.len() implies #[trigger] g1.break_target[j]
            < g1.code.len() by {
            assert(g1.break_target[j] == g.break_target[j]);
        }
        assert forall|j: int| 0 <= j < g1.continue_target.len() implies
            #[trigger] g1.continue_target[j] < g1.code.len() by {
            assert(g1.continue_target[j] == g.continue_target[j]);
        }
    }
}

proof fn lemma_loop(g: Gen, s: StmtView)
    requires
        in_order(g),
    ensures
        stmt_ok(g, g_loop(g, s)),
    decreases s, 0int,
{
    if let StmtView::Loop { locals, code } = s {
        if let Some(f) = g.current_func {
            lemma_append_block(g, f, "loop"@);
            let (g1, head) = append_block(g, f, "loop"@);
            lemma_append_block(g1, f, "loop_end"@);
            let (g2, end) = append_block(g1, f, "loop_end"@);
            lemma_emit(g2, InstrView::Branch { target: head });
            if let Some((g3, _)) = emit(g2, InstrView::Branch { target: head }) {
                lemma_position(g3, head);
                lemma_enter_loop(position(g3, head), end, head);
                let g4 = enter_loop(position(g3, head), end, head);
                lemma_stmts(g4, code);
                if let Some(g5) = g_stmts(g4, code) {
                    lemma_close_with(g5, head);
                    if let Some(g6) = g_close_with(g5, head) {
                        lemma_leave_loop(g6);
                        lemma_position(leave_loop(g6), end);
                    }
                }
            }
        }
    }
}

proof fn lemma_jumps(g: Gen)
    requires
        in_order(g),
    ensures
        stmt_ok(g, g_break(g)),
        stmt_ok(g, g_continue(g)),
{
    if g.break_target.len() > 0 {
        lemma_emit(g, InstrView::Branch { target: g.break_target.last() });
    }
    if g.continue_target.len() > 0 {
        lemma_emit(g, InstrView::Branch { target: g.continue_target.last() });
    }
}

proof fn lemma_assign(g: Gen, name: Seq<char>, value: ExprView)
    requires
        in_order(g),
    ensures
        stmt_ok(g, g_assign(g, name, value)),
{
    lemma_value(g, value);
    if g.names.contains(name) {
        let id = g.names.index_of(name) as usize;
        if let Some((g1, v, _)) = g_value(g, value) {
            if g1.vars.contains_key(id) {
                lemma_emit(g1, InstrView::Store { slot: g1.vars[id].ptr, value: v });
            }
        }
    }
}

proof fn lemma_return(g: Gen, e: ExprView)
    requires
        in_order(g),
    ensures
        stmt_ok(g, g_return(g, e)),
{
    lemma_value(g, e);
    if let Some((g1, v, _)) = g_value(g, e) {
        lemma_emit(g1, InstrView::Return(Some(v)));
    }
}

proof fn lemma_main(g: Gen, s: StmtView)
    requires
        in_order(g),
    ensures
        stmt_ok(g, g_main(g, s)),
    decreases s, 0int,
{
    if let StmtView::Main(f) = s {
        lemma_begin_function(g, main_fn_name(), seq![ValKind::Ptr], None);
        let (g1, fid) = g_begin_function(g, main_fn_name(), seq![ValKind::Ptr], None);
        lemma_stmts(Gen { current_func: Some(fid), ..g1 }, f.code);
        if let Some(g2) = g_stmts(Gen { current_func: Some(fid), ..g1 }, f.code) {
            lemma_emit(g2, InstrView::Return(None));
        }
    }
}

proof fn lemma_func(g: Gen, s: StmtView)
    requires
        in_order(g),
    ensures
        stmt_ok(g, g_func(g, s)),
    decreases s, 0int,
{
    if let StmtView::Func(f) = s {
        if let (Some(pk), Some(rk)) = (param_kinds(f.args), ret_kind(f.ty)) {
            lemma_begin_function(g, f.name, seq![ValKind::Ptr] + pk, rk);
            let (g1, fid) = g_begin_function(g, f.name, seq![ValKind::Ptr] + pk, rk);
            lemma_params(g1, fid, f.args, 0);
            if let Some(g2) = g_params(g1, fid, f.args, 0) {
                lemma_stmts(Gen { current_func: Some(fid), ..g2 }, f.code);
                if let Some(g3) = g_stmts(Gen { current_func: Some(fid), ..g2 }, f.code) {
                    lemma_emit(g3, InstrView::Return(None));
                }
            }
        }
    }
}

/// Law: compiling statements keeps the generator in order. Every
/// instruction it writes uses only values, blocks and functions that
/// instructions before it made; so does everything it keeps for later.
pub proof fn law_refs_precede(g: Gen, ss: Seq<StmtView>)
    requires
        gen_ok(g),
    ensures
        g_stmts(g, ss) matches Some(g1) ==> g.code.len() <= g1.code.len() && (g1.code.len()
            <= usize::MAX ==> gen_ok(g1)),
{
    lemma_stmts(g, ss);
}

/// Law: declaring a function keeps the generator in order.
pub proof fn law_add_function_keeps_order(
    g: Gen,
    name: Seq<char>,
    params: Seq<ValKind>,
    ret: Option<ValKind>,
)
    requires
        gen_ok(g),
    ensures
        g_add_function(g, name, params, ret).0.code.len() <= usize::MAX ==> gen_ok(
            g_add_function(g, name, params, ret).0,
        ),
{
    lemma_add_function(g, name, params, ret);
}

} // verus!
