//! The meaning of the parser, as functions on token sequences.
//!
//! Each function reads the tokens from a position and gives what was parsed
//! and where the tokens go on; `None` where parsing cannot go on (a missing or
//! unexpected token, an unknown name, a type error, a second declaration of
//! a name, `break` or `continue` outside a loop).
use crate::ast::{
    BinaryOp, CallView, CompareOp, CondView, ExprView, FunType, FuncView, LogicalOp, ParamView, SigView,
    StmtView, Type, VarView,
};
use crate::token::TokenView;
use vstd::prelude::*;

verus! {

/// What changes while statements are parsed: the position, the variables
/// declared so far and the functions known so far.
pub struct PState {
    pub pos: int,
    pub locals: Seq<VarView>,
    pub funcs: Seq<SigView>,
}

/// The names in scope: the variables declared so far and the functions known so far.
pub struct Scope {
    pub locals: Seq<VarView>,
    pub funcs: Seq<SigView>,
}

pub open spec fn scope_of(st: PState) -> Scope {
    Scope { locals: st.locals, funcs: st.funcs }
}

/// The token at `p`, if there is one.
pub open spec fn tok_at(toks: Seq<TokenView>, p: int) -> Option<TokenView> {
    if 0 <= p < toks.len() {
        Some(toks[p])
    } else {
        None
    }
}

/// Parsing went on from `p` to `q`, staying within the tokens.
pub open spec fn advanced(toks: Seq<TokenView>, p: int, q: int) -> bool {
    p < q <= toks.len()
}

/// The first variable named `name`.
pub open spec fn find_var(vs: Seq<VarView>, name: Seq<char>) -> Option<VarView>
    decreases vs.len(),
{
    if vs.len() == 0 {
        None
    } else if vs[0].name == name {
        Some(vs[0])
    } else {
        find_var(vs.drop_first(), name)
    }
}

/// The first function signature named `name`.
pub open spec fn find_sig(fs: Seq<SigView>, name: Seq<char>) -> Option<SigView>
    decreases fs.len(),
{
    if fs.len() == 0 {
        None
    } else if fs[0].name == name {
        Some(fs[0])
    } else {
        find_sig(fs.drop_first(), name)
    }
}

/// The return type that corresponds to a variable type.
pub open spec fn fun_type_of(t: Type) -> FunType {
    match t {
        Type::Int => FunType::Int,
        Type::Char => FunType::Char,
        Type::Bool => FunType::Bool,
        Type::Float => FunType::Float,
        Type::Str => FunType::Str,
    }
}

/// The type of an argument expression, where the parser can tell it.
pub open spec fn expr_type(locals: Seq<VarView>, e: ExprView) -> Option<Type> {
    match e {
        ExprView::Num(_) => Some(Type::Int),
        ExprView::Bool(_) => Some(Type::Bool),
        ExprView::Str(_) => Some(Type::Str),
        ExprView::Binary(_, _, _) => Some(Type::Int),
        ExprView::Float(_) => Some(Type::Float),
        ExprView::Id(n) => match find_var(locals, n) {
            Some(v) => Some(v.tipe),
            None => None,
        },
        _ => None,
    }
}

/// Whether the initial value `e` fits a declaration of type `t`.
pub open spec fn fits_type(sc: Scope, t: Type, e: ExprView) -> bool {
    match e {
        ExprView::Num(_) => t == Type::Int,
        ExprView::Bool(_) => t == Type::Bool,
        ExprView::Float(_) => t == Type::Float,
        ExprView::Char(_) => t == Type::Char,
        ExprView::Str(_) => t == Type::Str,
        ExprView::Binary(_, _, _) => t == Type::Int || t == Type::Float,
        ExprView::Id(n) => match find_var(sc.locals, n) {
            Some(v) => v.tipe == t,
            None => false,
        },
        ExprView::Func(c) => match find_sig(sc.funcs, c.name) {
            Some(g) => g.ty == Some(fun_type_of(t)),
            None => false,
        },
        _ => false,
    }
}

/// The arguments agree in number and type with the parameters.
pub open spec fn args_fit(locals: Seq<VarView>, args: Seq<ExprView>, params: Seq<ParamView>) -> bool {
    &&& args.len() == params.len()
    &&& forall|i: int| 0 <= i < args.len() ==> expr_type(locals, #[trigger] args[i]) == Some(params[i].ty)
}

// ---------------------------------------------------------------------
// Expressions: sums of products of primaries, left-associative
// ---------------------------------------------------------------------

pub open spec fn additive_op(t: TokenView) -> Option<BinaryOp> {
    match t {
        TokenView::Add => Some(BinaryOp::Add),
        TokenView::Mines => Some(BinaryOp::Sub),
        _ => None,
    }
}

pub open spec fn multiplicative_op(t: TokenView) -> Option<BinaryOp> {
    match t {
        TokenView::Mul => Some(BinaryOp::Mul),
        TokenView::Div => Some(BinaryOp::Div),
        _ => None,
    }
}

/// An expression at `p`.
pub open spec fn p_expr(toks: Seq<TokenView>, sc: Scope, p: int) -> Option<(ExprView, int)>
    decreases toks.len() - p, 3int,
{
    match p_term(toks, sc, p) {
        Some((l, q)) => if advanced(toks, p, q) {
            p_expr_rest(toks, sc, q, l)
        } else {
            None
        },
        None => None,
    }
}

/// The `+`/`-` operands that follow the left operand `left`, ending at `p`.
pub open spec fn p_expr_rest(toks: Seq<TokenView>, sc: Scope, p: int, left: ExprView) -> Option<
    (ExprView, int),
>
    decreases toks.len() - p, 0int,
{
    match tok_at(toks, p) {
        None => None,
        Some(t) => match additive_op(t) {
            Some(op) => match p_term(toks, sc, p + 1) {
                Some((r, q)) => if advanced(toks, p, q) {
                    p_expr_rest(toks, sc, q, ExprView::Binary(Box::new(left), op, Box::new(r)))
                } else {
                    None
                },
                None => None,
            },
            None => Some((left, p)),
        },
    }
}

/// A product at `p`.
pub open spec fn p_term(toks: Seq<TokenView>, sc: Scope, p: int) -> Option<(ExprView, int)>
    decreases toks.len() - p, 2int,
{
    match p_primary(toks, sc, p) {
        Some((l, q)) => if advanced(toks, p, q) {
            p_term_rest(toks, sc, q, l)
        } else {
            None
        },
        None => None,
    }
}

/// The `*`/`/` operands that follow the left operand `left`, ending at `p`.
pub open spec fn p_term_rest(toks: Seq<TokenView>, sc: Scope, p: int, left: ExprView) -> Option<
    (ExprView, int),
>
    decreases toks.len() - p, 0int,
{
    match tok_at(toks, p) {
        None => None,
        Some(t) => match multiplicative_op(t) {
            Some(op) => match p_primary(toks, sc, p + 1) {
                Some((r, q)) => if advanced(toks, p, q) {
                    p_term_rest(toks, sc, q, ExprView::Binary(Box::new(left), op, Box::new(r)))
                } else {
                    None
                },
                None => None,
            },
            None => Some((left, p)),
        },
    }
}

/// A literal, a name, a call or a parenthesized expression at `p`.
pub open spec fn p_primary(toks: Seq<TokenView>, sc: Scope, p: int) -> Option<(ExprView, int)>
    decreases toks.len() - p, 1int,
{
    match tok_at(toks, p) {
        None => None,
        Some(t) => match t {
            TokenView::Number(v) => Some((ExprView::Num(v), p + 1)),
            TokenView::CharValue(c) => Some((ExprView::Char(c), p + 1)),
            TokenView::FloatValue(f) => Some((ExprView::Float(f), p + 1)),
            TokenView::String(s) => Some((ExprView::Str(s), p + 1)),
            TokenView::Identifier(n) => match tok_at(toks, p + 1) {
                None => None,
                Some(TokenView::Lparen) => match p_call(toks, sc, n, p + 2) {
                    Some((c, q)) => Some((ExprView::Func(c), q)),
                    None => None,
                },
                Some(_) => Some((ExprView::Id(n), p + 1)),
            },
            TokenView::Lparen => match p_expr(toks, sc, p + 1) {
                Some((e, q)) => match tok_at(toks, q) {
                    Some(TokenView::Rparen) => Some((e, q + 1)),
                    _ => None,
                },
                None => None,
            },
            _ => None,
        },
    }
}

/// The arguments of a call of `name`, from `p` (after the `(`) through the `)`.
pub open spec fn p_call(toks: Seq<TokenView>, sc: Scope, name: Seq<char>, p: int) -> Option<
    (CallView, int),
>
    decreases toks.len() - p, 5int,
{
    match find_sig(sc.funcs, name) {
        None => None,
        Some(g) => match p_args(toks, sc, p, seq![]) {
            Some((args, q)) => if args_fit(sc.locals, args, g.args) {
                Some((CallView { name, args }, q + 1))
            } else {
                None
            },
            None => None,
        },
    }
}

/// The argument expressions from `p` up to the `)`, after the arguments `acc`;
/// gives the position of the `)`.
pub open spec fn p_args(toks: Seq<TokenView>, sc: Scope, p: int, acc: Seq<ExprView>) -> Option<
    (Seq<ExprView>, int),
>
    decreases toks.len() - p, 4int,
{
    match tok_at(toks, p) {
        None => None,
        Some(TokenView::Rparen) => Some((acc, p)),
        Some(_) => match p_expr(toks, sc, p) {
            Some((e, q)) => if advanced(toks, p, q) {
                match tok_at(toks, q) {
                    None => None,
                    Some(TokenView::Comma) => p_args(toks, sc, q + 1, acc.push(e)),
                    Some(_) => p_args(toks, sc, q, acc.push(e)),
                }
            } else {
                None
            },
            None => None,
        },
    }
}


/// Lemma: a parsed expression takes at least one token.
pub proof fn lemma_expr_progress(toks: Seq<TokenView>, sc: Scope, p: int)
    ensures
        p_expr(toks, sc, p) matches Some((_, q)) ==> advanced(toks, p, q),
    decreases toks.len() - p, 3int,
{
    if let Some((l, q)) = p_term(toks, sc, p) {
        if advanced(toks, p, q) {
            lemma_expr_rest_progress(toks, sc, q, l);
        }
    }
}

pub proof fn lemma_expr_rest_progress(toks: Seq<TokenView>, sc: Scope, p: int, left: ExprView)
    ensures
        p_expr_rest(toks, sc, p, left) matches Some((_, q)) ==> p <= q <= toks.len() && 0 <= p,
    decreases toks.len() - p, 0int,
{
    if let Some(t) = tok_at(toks, p) {
        if let Some(op) = additive_op(t) {
            if let Some((r, q)) = p_term(toks, sc, p + 1) {
                if advanced(toks, p, q) {
                    lemma_expr_rest_progress(
                        toks,
                        sc,
                        q,
                        ExprView::Binary(Box::new(left), op, Box::new(r)),
                    );
                }
            }
        }
    }
}

pub proof fn lemma_term_progress(toks: Seq<TokenView>, sc: Scope, p: int)
    ensures
        p_term(toks, sc, p) matches Some((_, q)) ==> advanced(toks, p, q),
    decreases toks.len() - p, 3int,
{
    if let Some((l, q)) = p_primary(toks, sc, p) {
        if advanced(toks, p, q) {
            lemma_term_rest_progress(toks, sc, q, l);
        }
    }
}

pub proof fn lemma_term_rest_progress(toks: Seq<TokenView>, sc: Scope, p: int, left: ExprView)
    ensures
        p_term_rest(toks, sc, p, left) matches Some((_, q)) ==> p <= q <= toks.len() && 0 <= p,
    decreases toks.len() - p, 0int,
{
    if let Some(t) = tok_at(toks, p) {
        if let Some(op) = multiplicative_op(t) {
            if let Some((r, q)) = p_primary(toks, sc, p + 1) {
                if advanced(toks, p, q) {
                    lemma_term_rest_progress(
                        toks,
                        sc,
                        q,
                        ExprView::Binary(Box::new(left), op, Box::new(r)),
                    );
                }
            }
        }
    }
}

pub proof fn lemma_primary_progress(toks: Seq<TokenView>, sc: Scope, p: int)
    ensures
        p_primary(toks, sc, p) matches Some((_, q)) ==> advanced(toks, p, q),
    decreases toks.len() - p, 1int,
{
    if let Some(t) = tok_at(toks, p) {
        match t {
            TokenView::Identifier(n) => {
                if tok_at(toks, p + 1) == Some(TokenView::Lparen) {
                    lemma_call_progress(toks, sc, n, p + 2);
                }
            },
            TokenView::Lparen => {
                lemma_expr_progress(toks, sc, p + 1);
            },
            _ => {},
        }
    }
}

pub proof fn lemma_call_progress(toks: Seq<TokenView>, sc: Scope, name: Seq<char>, p: int)
    ensures
        p_call(toks, sc, name, p) matches Some((_, q)) ==> p < q <= toks.len() && 0 <= p,
    decreases toks.len() - p, 5int,
{
    lemma_args_progress(toks, sc, p, seq![]);
}

pub proof fn lemma_args_progress(toks: Seq<TokenView>, sc: Scope, p: int, acc: Seq<ExprView>)
    ensures
        p_args(toks, sc, p, acc) matches Some((_, q)) ==> 0 <= p <= q < toks.len() && tok_at(
            toks,
            q,
        ) == Some(TokenView::Rparen),
    decreases toks.len() - p, 4int,
{
    if let Some(t) = tok_at(toks, p) {
        if t != TokenView::Rparen {
            if let Some((e, q)) = p_expr(toks, sc, p) {
                if advanced(toks, p, q) {
                    match tok_at(toks, q) {
                        Some(TokenView::Comma) => lemma_args_progress(toks, sc, q + 1, acc.push(e)),
                        Some(_) => lemma_args_progress(toks, sc, q, acc.push(e)),
                        None => {},
                    }
                }
            }
        }
    }
}


// ---------------------------------------------------------------------
// Conditions
// ---------------------------------------------------------------------

pub open spec fn compare_op(t: TokenView) -> Option<CompareOp> {
    match t {
        TokenView::Equal => Some(CompareOp::Equal),
        TokenView::NotEqual => Some(CompareOp::NotEqual),
        TokenView::Less => Some(CompareOp::Less),
        TokenView::Greater => Some(CompareOp::Greater),
        _ => None,
    }
}

/// A comparison, or an expression standing alone before `{`, `||` or `&&`.
pub open spec fn p_cond_atom(toks: Seq<TokenView>, sc: Scope, p: int) -> Option<(CondView, int)> {
    match p_expr(toks, sc, p) {
        None => None,
        Some((l, q)) => match tok_at(toks, q) {
            None => None,
            Some(t) => match compare_op(t) {
                Some(op) => match p_expr(toks, sc, q + 1) {
                    Some((r, q2)) => Some((CondView::Compare { left: l, op, right: r }, q2)),
                    None => None,
                },
                None => if t == TokenView::Lcurly || t == TokenView::Or || t == TokenView::And {
                    Some((CondView::OnlyOne(l), q))
                } else {
                    None
                },
            },
        },
    }
}

pub proof fn lemma_cond_atom_progress(toks: Seq<TokenView>, sc: Scope, p: int)
    ensures
        p_cond_atom(toks, sc, p) matches Some((_, q)) ==> advanced(toks, p, q),
{
    lemma_expr_progress(toks, sc, p);
    if let Some((l, q)) = p_expr(toks, sc, p) {
        lemma_expr_progress(toks, sc, q + 1);
    }
}

/// Atoms joined by `&&`, grouped to the right.
pub open spec fn p_and(toks: Seq<TokenView>, sc: Scope, p: int) -> Option<(CondView, int)>
    decreases toks.len() - p,
{
    match p_cond_atom(toks, sc, p) {
        None => None,
        Some((l, q)) => {
            proof {
                lemma_cond_atom_progress(toks, sc, p);
            }
            if tok_at(toks, q) == Some(TokenView::And) {
                match p_and(toks, sc, q + 1) {
                    Some((r, q2)) => Some(
                        (
                            CondView::LogicalCompare {
                                left: Box::new(l),
                                op: LogicalOp::And,
                                right: Box::new(r),
                            },
                            q2,
                        ),
                    ),
                    None => None,
                }
            } else {
                Some((l, q))
            }
        },
    }
}

pub proof fn lemma_and_progress(toks: Seq<TokenView>, sc: Scope, p: int)
    ensures
        p_and(toks, sc, p) matches Some((_, q)) ==> advanced(toks, p, q),
    decreases toks.len() - p,
{
    lemma_cond_atom_progress(toks, sc, p);
    if let Some((l, q)) = p_cond_atom(toks, sc, p) {
        if tok_at(toks, q) == Some(TokenView::And) {
            lemma_and_progress(toks, sc, q + 1);
        }
    }
}

/// Conjunctions joined by `||`, grouped to the right.
pub open spec fn p_or(toks: Seq<TokenView>, sc: Scope, p: int) -> Option<(CondView, int)>
    decreases toks.len() - p,
{
    match p_and(toks, sc, p) {
        None => None,
        Some((l, q)) => {
            proof {
                lemma_and_progress(toks, sc, p);
            }
            if tok_at(toks, q) == Some(TokenView::Or) {
                match p_or(toks, sc, q + 1) {
                    Some((r, q2)) => Some(
                        (
                            CondView::LogicalCompare {
                                left: Box::new(l),
                                op: LogicalOp::Or,
                                right: Box::new(r),
                            },
                            q2,
                        ),
                    ),
                    None => None,
                }
            } else {
                Some((l, q))
            }
        },
    }
}

pub proof fn lemma_or_progress(toks: Seq<TokenView>, sc: Scope, p: int)
    ensures
        p_or(toks, sc, p) matches Some((_, q)) ==> advanced(toks, p, q),
    decreases toks.len() - p,
{
    lemma_and_progress(toks, sc, p);
    if let Some((l, q)) = p_and(toks, sc, p) {
        if tok_at(toks, q) == Some(TokenView::Or) {
            lemma_or_progress(toks, sc, q + 1);
        }
    }
}

// ---------------------------------------------------------------------
// Blocks
// ---------------------------------------------------------------------

/// The position of the `}` that closes a block whose body starts at `p`,
/// with `depth` blocks still open inside it.
pub open spec fn matching_close(toks: Seq<TokenView>, p: int, depth: nat) -> Option<int>
    decreases toks.len() - p,
{
    if p < 0 || p >= toks.len() {
        None
    } else if toks[p] == TokenView::Lcurly {
        matching_close(toks, p + 1, depth + 1)
    } else if toks[p] == TokenView::Rcurly {
        if depth == 0 {
            Some(p)
        } else {
            matching_close(toks, p + 1, (depth - 1) as nat)
        }
    } else {
        matching_close(toks, p + 1, depth)
    }
}

pub proof fn lemma_matching_close(toks: Seq<TokenView>, p: int, depth: nat)
    ensures
        matching_close(toks, p, depth) matches Some(q) ==> 0 <= p <= q < toks.len() && toks[q]
            == TokenView::Rcurly,
    decreases toks.len() - p,
{
    if 0 <= p < toks.len() {
        if toks[p] == TokenView::Lcurly {
            lemma_matching_close(toks, p + 1, depth + 1);
        } else if toks[p] == TokenView::Rcurly {
            if depth != 0 {
                lemma_matching_close(toks, p + 1, (depth - 1) as nat);
            }
        } else {
            lemma_matching_close(toks, p + 1, depth);
        }
    }
}

/// The tokens of a block body from `p` to `q`, ended by `EOF`.
pub open spec fn body_tokens(toks: Seq<TokenView>, p: int, q: int) -> Seq<TokenView> {
    toks.subrange(p, q).push(TokenView::EOF)
}

/// A state for parsing a block body: at its start, with the given variables
/// and functions.
pub open spec fn block_state(locals: Seq<VarView>, funcs: Seq<SigView>) -> PState {
    PState { pos: 0, locals, funcs }
}

// ---------------------------------------------------------------------
// Statements
// ---------------------------------------------------------------------

/// The type that a declaration keyword declares.
pub open spec fn decl_type(t: TokenView) -> Option<Type> {
    match t {
        TokenView::Int => Some(Type::Int),
        TokenView::Char => Some(Type::Char),
        TokenView::Str => Some(Type::Str),
        TokenView::Float => Some(Type::Float),
        _ => None,
    }
}

/// The statement that declares `v`.
pub open spec fn decl_stmt(v: VarView) -> StmtView {
    match v.tipe {
        Type::Int => StmtView::Int(v),
        Type::Char => StmtView::Char(v),
        Type::Str => StmtView::Str(v),
        Type::Float => StmtView::Float(v),
        Type::Bool => StmtView::Bool(v),
    }
}

/// `t name = value`, where `t` at `st.pos` declares type `ty`.
pub open spec fn p_decl(toks: Seq<TokenView>, st: PState, ty: Type) -> Option<(StmtView, PState)> {
    let p = st.pos;
    match tok_at(toks, p + 1) {
        Some(TokenView::Identifier(name)) => if tok_at(toks, p + 2) == Some(TokenView::Assign) {
            match p_expr(toks, scope_of(st), p + 3) {
                Some((e, q)) => if fits_type(scope_of(st), ty, e) && find_var(st.locals, name) is None {
                    let v = VarView { tipe: ty, value: e, name };
                    Some((decl_stmt(v), PState { pos: q, locals: st.locals.push(v), ..st }))
                } else {
                    None
                },
                None => None,
            }
        } else {
            None
        },
        _ => None,
    }
}

/// `name = value`, or a call statement `name(args)`, at `st.pos`.
pub open spec fn p_name_stmt(toks: Seq<TokenView>, st: PState, name: Seq<char>) -> Option<
    (StmtView, PState),
> {
    let p = st.pos;
    match tok_at(toks, p + 1) {
        None => None,
        Some(TokenView::Lparen) => match p_call(toks, scope_of(st), name, p + 2) {
            Some((c, q)) => Some((StmtView::Funcall(c), PState { pos: q, ..st })),
            None => None,
        },
        Some(t) => if find_var(st.locals, name) is Some && t == TokenView::Assign {
            match p_expr(toks, scope_of(st), p + 2) {
                Some((e, q)) => Some(
                    (StmtView::Assign { name, value: e }, PState { pos: q, ..st }),
                ),
                None => None,
            }
        } else {
            None
        },
    }
}

/// The type of a parameter keyword.
pub open spec fn param_type(t: TokenView) -> Option<Type> {
    match t {
        TokenView::Int => Some(Type::Int),
        TokenView::Str => Some(Type::Str),
        TokenView::Float => Some(Type::Float),
        _ => None,
    }
}

/// The parameters from `p` up to the `)`, after the parameters `args`
/// (declared as the variables `vars`); gives the position of the `)`.
pub open spec fn p_params(
    toks: Seq<TokenView>,
    p: int,
    args: Seq<ParamView>,
    vars: Seq<VarView>,
) -> Option<(Seq<ParamView>, Seq<VarView>, int)>
    decreases toks.len() - p,
{
    match tok_at(toks, p) {
        None => None,
        Some(TokenView::Rparen) => Some((args, vars, p)),
        Some(t) => match (param_type(t), tok_at(toks, p + 1)) {
            (Some(ty), Some(TokenView::Identifier(name))) => if find_var(vars, name) is None {
                let args2 = args.push(ParamView { name, ty });
                let vars2 = vars.push(VarView { tipe: ty, value: ExprView::Unset(None), name });
                match tok_at(toks, p + 2) {
                    None => None,
                    Some(TokenView::Comma) => p_params(toks, p + 3, args2, vars2),
                    Some(_) => p_params(toks, p + 2, args2, vars2),
                }
            } else {
                None
            },
            _ => None,
        },
    }
}

pub proof fn lemma_params_progress(
    toks: Seq<TokenView>,
    p: int,
    args: Seq<ParamView>,
    vars: Seq<VarView>,
)
    ensures
        p_params(toks, p, args, vars) matches Some((_, _, q)) ==> 0 <= p <= q < toks.len(),
    decreases toks.len() - p,
{
    if let Some(t) = tok_at(toks, p) {
        if t != TokenView::Rparen {
            if let (Some(ty), Some(TokenView::Identifier(name))) = (
                param_type(t),
                tok_at(toks, p + 1),
            ) {
                let args2 = args.push(ParamView { name, ty });
                let vars2 = vars.push(VarView { tipe: ty, value: ExprView::Unset(None), name });
                match tok_at(toks, p + 2) {
                    Some(TokenView::Comma) => lemma_params_progress(toks, p + 3, args2, vars2),
                    Some(_) => lemma_params_progress(toks, p + 2, args2, vars2),
                    None => {},
                }
            }
        }
    }
}

/// The first statement of `code` that returns a value, if any.
pub open spec fn first_return(code: Seq<StmtView>) -> Option<ExprView>
    decreases code.len(),
{
    if code.len() == 0 {
        None
    } else if let StmtView::ReturnStmt(e) = code[0] {
        Some(e)
    } else {
        first_return(code.drop_first())
    }
}

/// The return type of a function whose body declares `locals` and whose
/// first `return` gives `e`; `None` where it cannot be told.
pub open spec fn return_type(e: ExprView, locals: Seq<VarView>, funcs: Seq<SigView>) -> Option<
    Option<FunType>,
> {
    match e {
        ExprView::Num(_) => Some(Some(FunType::Int)),
        ExprView::Char(_) => Some(Some(FunType::Char)),
        ExprView::Bool(_) => Some(Some(FunType::Bool)),
        ExprView::Str(_) => Some(Some(FunType::Str)),
        ExprView::Binary(_, _, _) => Some(Some(FunType::Int)),
        ExprView::Func(c) => match find_sig(funcs, c.name) {
            Some(g) => Some(g.ty),
            None => None,
        },
        ExprView::Id(n) => match find_var(locals, n) {
            Some(v) => Some(Some(fun_type_of(v.tipe))),
            None => None,
        },
        _ => None,
    }
}

/// Whether some statement of `code` is a `return`.
pub open spec fn has_return(code: Seq<StmtView>) -> bool {
    exists|i: int| 0 <= i < code.len() && code[i] is ReturnStmt
}

pub open spec fn main_name() -> Seq<char> {
    seq!['m', 'a', 'i', 'n']
}

/// Statements from `st.pos` up to `EOF`; `in_loop` tells whether they stand in
/// the body of a loop.
pub open spec fn p_stmts(toks: Seq<TokenView>, in_loop: bool, st: PState) -> Option<
    (Seq<StmtView>, PState),
>
    decreases toks.len() - st.pos, 3int,
{
    match tok_at(toks, st.pos) {
        None => None,
        Some(TokenView::EOF) => Some((seq![], st)),
        Some(_) => match p_stmt(toks, in_loop, st) {
            Some((s, st2)) => if advanced(toks, st.pos, st2.pos) {
                match p_stmts(toks, in_loop, st2) {
                    Some((rest, st3)) => Some((seq![s] + rest, st3)),
                    None => None,
                }
            } else {
                None
            },
            None => None,
        },
    }
}

/// One statement at `st.pos`.
pub open spec fn p_stmt(toks: Seq<TokenView>, in_loop: bool, st: PState) -> Option<
    (StmtView, PState),
>
    decreases toks.len() - st.pos, 2int,
{
    let p = st.pos;
    match tok_at(toks, p) {
        None => None,
        Some(t) => match t {
            TokenView::Int => p_decl(toks, st, Type::Int),
            TokenView::Char => p_decl(toks, st, Type::Char),
            TokenView::Str => p_decl(toks, st, Type::Str),
            TokenView::Float => p_decl(toks, st, Type::Float),
            TokenView::Return => match p_expr(toks, scope_of(st), p + 1) {
                Some((e, q)) => Some((StmtView::ReturnStmt(e), PState { pos: q, ..st })),
                None => None,
            },
            TokenView::Continue => if in_loop {
                Some((StmtView::Continue, PState { pos: p + 1, ..st }))
            } else {
                None
            },
            TokenView::Break => if in_loop {
                Some((StmtView::Break, PState { pos: p + 1, ..st }))
            } else {
                None
            },
            TokenView::Func => p_func(toks, st),
            TokenView::If => p_if(toks, in_loop, st),
            TokenView::While => p_while(toks, st),
            TokenView::Loop => p_loop(toks, st),
            TokenView::Identifier(name) => p_name_stmt(toks, st, name),
            _ => None,
        },
    }
}

/// `if cond { .. }`, with an optional `else { .. }`.
pub open spec fn p_if(toks: Seq<TokenView>, in_loop: bool, st: PState) -> Option<
    (StmtView, PState),
>
    decreases toks.len() - st.pos, 1int,
{
    let p = st.pos;
    match p_or(toks, scope_of(st), p + 1) {
        None => None,
        Some((c, q)) => {
            proof {
                lemma_or_progress(toks, scope_of(st), p + 1);
            }
            if q >= toks.len() {
                None
            } else {
                match matching_close(toks, q + 1, 0) {
                    None => None,
                    Some(e) => {
                        proof {
                            lemma_matching_close(toks, q + 1, 0);
                        }
                        let after = e + 1;
                        let inner = block_state(st.locals, st.funcs);
                        match tok_at(toks, after) {
                            None => None,
                            Some(TokenView::Else) => if after + 1 >= toks.len() {
                                None
                            } else {
                                match matching_close(toks, after + 2, 0) {
                                    None => None,
                                    Some(e2) => {
                                        proof {
                                            lemma_matching_close(toks, after + 2, 0);
                                        }
                                        match (
                                            p_stmts(
                                                body_tokens(toks, after + 2, e2),
                                                in_loop,
                                                inner,
                                            ),
                                            p_stmts(body_tokens(toks, q + 1, e), in_loop, inner),
                                        ) {
                                            (Some((els, _)), Some((code, fin))) => Some(
                                                (
                                                    StmtView::If {
                                                        cond: c,
                                                        code,
                                                        locals: fin.locals,
                                                        elsepart: Some(els),
                                                    },
                                                    PState { pos: e2 + 1, ..st },
                                                ),
                                            ),
                                            _ => None,
                                        }
                                    },
                                }
                            },
                            Some(_) => match p_stmts(body_tokens(toks, q + 1, e), in_loop, inner) {
                                Some((code, fin)) => Some(
                                    (
                                        StmtView::If {
                                            cond: c,
                                            code,
                                            locals: fin.locals,
                                            elsepart: None,
                                        },
                                        PState { pos: after, ..st },
                                    ),
                                ),
                                None => None,
                            },
                        }
                    },
                }
            }
        },
    }
}

/// `while cond { .. }`; the condition may hold `&&` but not `||`.
pub open spec fn p_while(toks: Seq<TokenView>, st: PState) -> Option<(StmtView, PState)>
    decreases toks.len() - st.pos, 1int,
{
    let p = st.pos;
    match p_and(toks, scope_of(st), p + 1) {
        None => None,
        Some((c, q)) => {
            proof {
                lemma_and_progress(toks, scope_of(st), p + 1);
            }
            if q >= toks.len() {
                None
            } else {
                match matching_close(toks, q + 1, 0) {
                    None => None,
                    Some(e) => {
                        proof {
                            lemma_matching_close(toks, q + 1, 0);
                        }
                        match p_stmts(
                            body_tokens(toks, q + 1, e),
                            true,
                            block_state(st.locals, st.funcs),
                        ) {
                            Some((code, fin)) => Some(
                                (
                                    StmtView::While { cond: c, code, locals: fin.locals },
                                    PState { pos: e + 1, ..st },
                                ),
                            ),
                            None => None,
                        }
                    },
                }
            }
        },
    }
}

/// `loop { .. }`.
pub open spec fn p_loop(toks: Seq<TokenView>, st: PState) -> Option<(StmtView, PState)>
    decreases toks.len() - st.pos, 1int,
{
    let p = st.pos;
    if tok_at(toks, p + 1) != Some(TokenView::Lcurly) {
        None
    } else {
        match matching_close(toks, p + 2, 0) {
            None => None,
            Some(e) => {
                proof {
                    lemma_matching_close(toks, p + 2, 0);
                }
                match p_stmts(body_tokens(toks, p + 2, e), true, block_state(st.locals, st.funcs)) {
                    Some((code, fin)) => Some(
                        (StmtView::Loop { locals: fin.locals, code }, PState { pos: e + 1, ..st }),
                    ),
                    None => None,
                }
            },
        }
    }
}

/// `func name(params) { .. }`, or the `main` function.
pub open spec fn p_func(toks: Seq<TokenView>, st: PState) -> Option<(StmtView, PState)>
    decreases toks.len() - st.pos, 1int,
{
    let p = st.pos;
    match tok_at(toks, p + 1) {
        Some(TokenView::Identifier(name)) => if name == main_name() {
            p_main(toks, PState { pos: p + 2, ..st })
        } else if tok_at(toks, p + 2) != Some(TokenView::Lparen) {
            None
        } else {
            match p_params(toks, p + 3, seq![], seq![]) {
                None => None,
                Some((args, vars, r)) => {
                    proof {
                        lemma_params_progress(toks, p + 3, seq![], seq![]);
                    }
                    if tok_at(toks, r + 1) != Some(TokenView::Lcurly) {
                        None
                    } else {
                        match matching_close(toks, r + 2, 0) {
                            None => None,
                            Some(e) => {
                                proof {
                                    lemma_matching_close(toks, r + 2, 0);
                                }
                                match p_stmts(
                                    body_tokens(toks, r + 2, e),
                                    false,
                                    block_state(vars, st.funcs),
                                ) {
                                    None => None,
                                    Some((code, fin)) => {
                                        let ret = first_return(code);
                                        let ty = match ret {
                                            Some(v) => return_type(v, fin.locals, st.funcs),
                                            None => Some(None),
                                        };
                                        match ty {
                                            None => None,
                                            Some(ty) => Some(
                                                (
                                                    StmtView::Func(
                                                        FuncView {
                                                            args,
                                                            code,
                                                            name,
                                                            ty,
                                                            returnv: ret,
                                                            locals: fin.locals,
                                                        },
                                                    ),
                                                    PState {
                                                        pos: e + 1,
                                                        funcs: st.funcs.push(
                                                            SigView { name, args, ty },
                                                        ),
                                                        ..st
                                                    },
                                                ),
                                            ),
                                        }
                                    },
                                }
                            },
                        }
                    }
                },
            }
        },
        _ => None,
    }
}

/// The rest of `func main() { .. }`, after the name; `main` takes no
/// parameters and returns nothing.
pub open spec fn p_main(toks: Seq<TokenView>, st: PState) -> Option<(StmtView, PState)>
    decreases toks.len() - st.pos, 0int,
{
    let p = st.pos;
    let opens = match tok_at(toks, p) {
        None => false,
        Some(TokenView::Lparen) => true,
        Some(_) => tok_at(toks, p + 1) == Some(TokenView::Rparen),
    };
    if !opens || p + 1 >= toks.len() || tok_at(toks, p + 2) != Some(TokenView::Lcurly) {
        None
    } else {
        match matching_close(toks, p + 3, 0) {
            None => None,
            Some(e) => {
                proof {
                    lemma_matching_close(toks, p + 3, 0);
                }
                match p_stmts(body_tokens(toks, p + 3, e), false, block_state(seq![], st.funcs)) {
                    None => None,
                    Some((code, fin)) => if has_return(code) {
                        None
                    } else {
                        Some(
                            (
                                StmtView::Main(
                                    FuncView {
                                        args: seq![],
                                        code,
                                        name: main_name(),
                                        ty: None,
                                        returnv: None,
                                        locals: fin.locals,
                                    },
                                ),
                                PState { pos: e + 1, ..st },
                            ),
                        )
                    },
                }
            },
        }
    }
}


/// Lemma: a parsed function definition takes at least one token.
pub proof fn lemma_func_progress(toks: Seq<TokenView>, st: PState)
    ensures
        p_func(toks, st) matches Some((_, st2)) ==> advanced(toks, st.pos, st2.pos),
{
    let p = st.pos;
    if let Some(TokenView::Identifier(name)) = tok_at(toks, p + 1) {
        if name == main_name() {
            lemma_matching_close(toks, p + 5, 0);
        } else {
            lemma_params_progress(toks, p + 3, seq![], seq![]);
            if let Some((args, vars, r)) = p_params(toks, p + 3, seq![], seq![]) {
                lemma_matching_close(toks, r + 2, 0);
            }
        }
    }
}

/// Lemma: a parsed statement takes at least one token.
pub proof fn lemma_stmt_progress(toks: Seq<TokenView>, in_loop: bool, st: PState)
    ensures
        p_stmt(toks, in_loop, st) matches Some((_, st2)) ==> advanced(toks, st.pos, st2.pos),
{
    let p = st.pos;
    let sc = scope_of(st);
    if let Some(t) = tok_at(toks, p) {
        match t {
            TokenView::Int | TokenView::Char | TokenView::Str | TokenView::Float => {
                lemma_expr_progress(toks, sc, p + 3);
            },
            TokenView::Return => {
                lemma_expr_progress(toks, sc, p + 1);
            },
            TokenView::Func => {
                lemma_func_progress(toks, st);
            },
            TokenView::If => {
                lemma_or_progress(toks, sc, p + 1);
                if let Some((c, q)) = p_or(toks, sc, p + 1) {
                    lemma_matching_close(toks, q + 1, 0);
                    if let Some(e) = matching_close(toks, q + 1, 0) {
                        lemma_matching_close(toks, e + 3, 0);
                    }
                }
            },
            TokenView::While => {
                lemma_and_progress(toks, sc, p + 1);
                if let Some((c, q)) = p_and(toks, sc, p + 1) {
                    lemma_matching_close(toks, q + 1, 0);
                }
            },
            TokenView::Loop => {
                lemma_matching_close(toks, p + 2, 0);
            },
            TokenView::Identifier(n) => {
                lemma_call_progress(toks, sc, n, p + 2);
                lemma_expr_progress(toks, sc, p + 2);
            },
            _ => {},
        }
    }
}

/// Function definitions from `st.pos` up to `EOF`.
pub open spec fn p_program(toks: Seq<TokenView>, st: PState) -> Option<Seq<StmtView>>
    decreases toks.len() - st.pos,
{
    match tok_at(toks, st.pos) {
        Some(TokenView::EOF) => Some(seq![]),
        Some(TokenView::Func) => match p_func(toks, st) {
            Some((f, st2)) => {
                proof {
                    lemma_func_progress(toks, st);
                }
                match p_program(toks, st2) {
                    Some(rest) => Some(seq![f] + rest),
                    None => None,
                }
            },
            None => None,
        },
        _ => None,
    }
}

/// The functions every program may call: `print(str)` and
/// `str_cmp(str, str)`, which gives a `bool`.
pub open spec fn builtin_sigs() -> Seq<SigView> {
    seq![
        SigView {
            name: seq!['p', 'r', 'i', 'n', 't'],
            args: seq![ParamView { name: seq!['s', 't', 'r', 'i', 'n', 'g'], ty: Type::Str }],
            ty: None,
        },
        SigView {
            name: seq!['s', 't', 'r', '_', 'c', 'm', 'p'],
            args: seq![
                ParamView { name: seq!['s', 't', 'r', 'i', 'n', 'g', '1'], ty: Type::Str },
                ParamView { name: seq!['s', 't', 'r', 'i', 'n', 'g', '2'], ty: Type::Str },
            ],
            ty: Some(FunType::Bool),
        },
    ]
}

/// The program that the tokens `toks` spell.
pub open spec fn parse_tokens(toks: Seq<TokenView>) -> Option<Seq<StmtView>> {
    p_program(toks, PState { pos: 0, locals: seq![], funcs: builtin_sigs() })
}


/// A top-level statement: a function definition, or `main`, whose body holds
/// no `return`.
pub open spec fn top_level_ok(s: StmtView) -> bool {
    match s {
        StmtView::Func(_) => true,
        StmtView::Main(f) => !has_return(f.code) && f.args.len() == 0 && f.ty is None,
        _ => false,
    }
}

proof fn lemma_func_shape(toks: Seq<TokenView>, st: PState)
    ensures
        p_func(toks, st) matches Some((s, _)) ==> top_level_ok(s),
{
}

proof fn lemma_program_shape(toks: Seq<TokenView>, st: PState)
    ensures
        p_program(toks, st) matches Some(ss) ==> forall|i: int|
            0 <= i < ss.len() ==> top_level_ok(#[trigger] ss[i]),
    decreases toks.len() - st.pos,
{
    if let Some(TokenView::Func) = tok_at(toks, st.pos) {
        if let Some((f, st2)) = p_func(toks, st) {
            lemma_func_progress(toks, st);
            lemma_func_shape(toks, st);
            lemma_program_shape(toks, st2);
            if let Some(rest) = p_program(toks, st2) {
                let ss = seq![f] + rest;
                assert forall|i: int| 0 <= i < ss.len() implies top_level_ok(#[trigger] ss[i]) by {
                    if i > 0 {
                        assert(ss[i] == rest[i - 1]);
                    }
                }
            }
        }
    }
}

/// Law: a program consists of function definitions only, and its `main`
/// takes no parameters, returns nothing and holds no `return` statement.
pub proof fn law_program_shape(toks: Seq<TokenView>)
    ensures
        parse_tokens(toks) matches Some(ss) ==> forall|i: int|
            0 <= i < ss.len() ==> top_level_ok(#[trigger] ss[i]),
{
    lemma_program_shape(toks, PState { pos: 0, locals: seq![], funcs: builtin_sigs() });
}


/// No two variables share a name.
pub open spec fn distinct_names(vs: Seq<VarView>) -> bool {
    forall|i: int, j: int| 0 <= i < j < vs.len() ==> vs[i].name != vs[j].name
}

proof fn lemma_find_var_none(vs: Seq<VarView>, name: Seq<char>)
    requires
        find_var(vs, name) is None,
    ensures
        forall|i: int| 0 <= i < vs.len() ==> vs[i].name != name,
    decreases vs.len(),
{
    if vs.len() > 0 {
        lemma_find_var_none(vs.drop_first(), name);
        assert forall|i: int| 0 <= i < vs.len() implies vs[i].name != name by {
            if i > 0 {
                assert(vs[i] == vs.drop_first()[i - 1]);
            }
        }
    }
}

proof fn lemma_stmt_keeps_distinct(toks: Seq<TokenView>, in_loop: bool, st: PState)
    requires
        distinct_names(st.locals),
    ensures
        p_stmt(toks, in_loop, st) matches Some((_, st2)) ==> distinct_names(st2.locals),
{
    let p = st.pos;
    if let Some(t) = tok_at(toks, p) {
        if let Some(ty) = decl_type(t) {
            if let Some(TokenView::Identifier(name)) = tok_at(toks, p + 1) {
                if find_var(st.locals, name) is None {
                    lemma_find_var_none(st.locals, name);
                }
            }
        }
    }
}

/// Law: parsing statements never declares a name twice in one scope: when
/// the names in scope are distinct before, they are distinct after.
pub proof fn law_stmts_keep_names_distinct(toks: Seq<TokenView>, in_loop: bool, st: PState)
    requires
        distinct_names(st.locals),
    ensures
        p_stmts(toks, in_loop, st) matches Some((_, st2)) ==> distinct_names(st2.locals),
    decreases toks.len() - st.pos,
{
    if let Some(t) = tok_at(toks, st.pos) {
        if t != TokenView::EOF {
            if let Some((s, st2)) = p_stmt(toks, in_loop, st) {
                lemma_stmt_keeps_distinct(toks, in_loop, st);
                if advanced(toks, st.pos, st2.pos) {
                    law_stmts_keep_names_distinct(toks, in_loop, st2);
                }
            }
        }
    }
}


/// `break` and `continue` in `ss` stand only in loop bodies; `in_loop` tells
/// whether `ss` itself is one.
pub open spec fn jumps_in_loops(ss: Seq<StmtView>, in_loop: bool) -> bool
    decreases ss, 1int,
{
    if ss.len() == 0 {
        true
    } else {
        stmt_jumps_in_loops(ss[0], in_loop) && jumps_in_loops(ss.drop_first(), in_loop)
    }
}

/// `break` and `continue` in `s` stand only in loop bodies.
pub open spec fn stmt_jumps_in_loops(s: StmtView, in_loop: bool) -> bool
    decreases s, 0int,
{
    match s {
        StmtView::Break | StmtView::Continue => in_loop,
        StmtView::While { code, .. } => jumps_in_loops(code, true),
        StmtView::Loop { code, .. } => jumps_in_loops(code, true),
        StmtView::If { code, elsepart, .. } => jumps_in_loops(code, in_loop) && match elsepart {
            Some(e) => jumps_in_loops(e, in_loop),
            None => true,
        },
        StmtView::Func(f) => jumps_in_loops(f.code, false),
        StmtView::Main(f) => jumps_in_loops(f.code, false),
        _ => true,
    }
}

proof fn lemma_stmts_jumps(toks: Seq<TokenView>, in_loop: bool, st: PState)
    ensures
        p_stmts(toks, in_loop, st) matches Some((ss, _)) ==> jumps_in_loops(ss, in_loop),
    decreases toks.len() - st.pos, 3int,
{
    if let Some(t) = tok_at(toks, st.pos) {
        if t != TokenView::EOF {
            lemma_stmt_jumps(toks, in_loop, st);
            if let Some((s, st2)) = p_stmt(toks, in_loop, st) {
                if advanced(toks, st.pos, st2.pos) {
                    lemma_stmts_jumps(toks, in_loop, st2);
                    if let Some((rest, _)) = p_stmts(toks, in_loop, st2) {
                        let ss = seq![s] + rest;
                        assert(ss[0] == s);
                        assert(ss.drop_first() =~= rest);
                    }
                }
            }
        }
    }
}

proof fn lemma_stmt_jumps(toks: Seq<TokenView>, in_loop: bool, st: PState)
    ensures
        p_stmt(toks, in_loop, st) matches Some((s, _)) ==> stmt_jumps_in_loops(s, in_loop),
    decreases toks.len() - st.pos, 2int,
{
    match tok_at(toks, st.pos) {
        Some(TokenView::If) => lemma_if_jumps(toks, in_loop, st),
        Some(TokenView::While) => lemma_while_jumps(toks, st),
        Some(TokenView::Loop) => lemma_loop_jumps(toks, st),
        Some(TokenView::Func) => lemma_func_jumps(toks, st),
        _ => {},
    }
}

proof fn lemma_if_jumps(toks: Seq<TokenView>, in_loop: bool, st: PState)
    ensures
        p_if(toks, in_loop, st) matches Some((s, _)) ==> stmt_jumps_in_loops(s, in_loop),
    decreases toks.len() - st.pos, 1int,
{
    let p = st.pos;
    lemma_or_progress(toks, scope_of(st), p + 1);
    if let Some((c, q)) = p_or(toks, scope_of(st), p + 1) {
        if q < toks.len() {
            lemma_matching_close(toks, q + 1, 0);
            if let Some(e) = matching_close(toks, q + 1, 0) {
                let after = e + 1;
                let inner = block_state(st.locals, st.funcs);
                lemma_stmts_jumps(body_tokens(toks, q + 1, e), in_loop, inner);
                if tok_at(toks, after) == Some(TokenView::Else) && after + 1 < toks.len() {
                    lemma_matching_close(toks, after + 2, 0);
                    if let Some(e2) = matching_close(toks, after + 2, 0) {
                        lemma_stmts_jumps(body_tokens(toks, after + 2, e2), in_loop, inner);
                    }
                }
            }
        }
    }
}

proof fn lemma_while_jumps(toks: Seq<TokenView>, st: PState)
    ensures
        p_while(toks, st) matches Some((s, _)) ==> forall|b: bool| stmt_jumps_in_loops(s, b),
    decreases toks.len() - st.pos, 1int,
{
    let p = st.pos;
    lemma_and_progress(toks, scope_of(st), p + 1);
    if let Some((c, q)) = p_and(toks, scope_of(st), p + 1) {
        if q < toks.len() {
            lemma_matching_close(toks, q + 1, 0);
            if let Some(e) = matching_close(toks, q + 1, 0) {
                lemma_stmts_jumps(body_tokens(toks, q + 1, e), true, block_state(st.locals, st.funcs));
            }
        }
    }
}

proof fn lemma_loop_jumps(toks: Seq<TokenView>, st: PState)
    ensures
        p_loop(toks, st) matches Some((s, _)) ==> forall|b: bool| stmt_jumps_in_loops(s, b),
    decreases toks.len() - st.pos, 1int,
{
    let p = st.pos;
    if tok_at(toks, p + 1) == Some(TokenView::Lcurly) {
        lemma_matching_close(toks, p + 2, 0);
        if let Some(e) = matching_close(toks, p + 2, 0) {
            lemma_stmts_jumps(body_tokens(toks, p + 2, e), true, block_state(st.locals, st.funcs));
        }
    }
}

proof fn lemma_func_jumps(toks: Seq<TokenView>, st: PState)
    ensures
        p_func(toks, st) matches Some((s, _)) ==> forall|b: bool| stmt_jumps_in_loops(s, b),
    decreases toks.len() - st.pos, 1int,
{
    let p = st.pos;
    if let Some(TokenView::Identifier(name)) = tok_at(toks, p + 1) {
        if name == main_name() {
            lemma_main_jumps(toks, PState { pos: p + 2, ..st });
        } else if tok_at(toks, p + 2) == Some(TokenView::Lparen) {
            lemma_params_progress(toks, p + 3, seq![], seq![]);
            if let Some((args, vars, r)) = p_params(toks, p + 3, seq![], seq![]) {
                if tok_at(toks, r + 1) == Some(TokenView::Lcurly) {
                    lemma_matching_close(toks, r + 2, 0);
                    if let Some(e) = matching_close(toks, r + 2, 0) {
                        lemma_stmts_jumps(body_tokens(toks, r + 2, e), false, block_state(vars, st.funcs));
                    }
                }
            }
        }
    }
}

proof fn lemma_main_jumps(toks: Seq<TokenView>, st: PState)
    ensures
        p_main(toks, st) matches Some((s, _)) ==> forall|b: bool| stmt_jumps_in_loops(s, b),
    decreases toks.len() - st.pos, 0int,
{
    let p = st.pos;
    if p + 1 < toks.len() && tok_at(toks, p + 2) == Some(TokenView::Lcurly) {
        lemma_matching_close(toks, p + 3, 0);
        if let Some(e) = matching_close(toks, p + 3, 0) {
            lemma_stmts_jumps(body_tokens(toks, p + 3, e), false, block_state(seq![], st.funcs));
        }
    }
}

proof fn lemma_program_jumps(toks: Seq<TokenView>, st: PState)
    ensures
        p_program(toks, st) matches Some(ss) ==> jumps_in_loops(ss, false),
    decreases toks.len() - st.pos,
{
    if let Some(TokenView::Func) = tok_at(toks, st.pos) {
        lemma_func_jumps(toks, st);
        if let Some((f, st2)) = p_func(toks, st) {
            lemma_func_progress(toks, st);
            lemma_program_jumps(toks, st2);
            if let Some(rest) = p_program(toks, st2) {
                let ss = seq![f] + rest;
                assert(stmt_jumps_in_loops(f, false));
                assert(ss[0] == f);
                assert(ss.drop_first() =~= rest);
            }
        }
    }
}

/// Law: in a program, `break` and `continue` stand only in the body of a
/// `while` or a `loop`; the body of a function starts outside any loop.
pub proof fn law_jumps_only_in_loops(toks: Seq<TokenView>)
    ensures
        parse_tokens(toks) matches Some(ss) ==> jumps_in_loops(ss, false),
{
    lemma_program_jumps(toks, PState { pos: 0, locals: seq![], funcs: builtin_sigs() });
}


/// Where a parse that succeeded stopped.
pub open spec fn pos_after(r: Option<(ExprView, int)>) -> int {
    match r {
        Some((_, q)) => q,
        None => 0,
    }
}

/// Law: a product of two primaries joined by `*` or `/`, followed by no
/// further `*` or `/`, is parsed as that product: `*` multiplies and `/`
/// divides, the left primary is the left operand and the right the right.
pub proof fn law_product_operator(toks: Seq<TokenView>, sc: Scope, p: int, t: TokenView)
    requires
        t == TokenView::Mul || t == TokenView::Div,
        p_primary(toks, sc, p) is Some,
        advanced(toks, p, pos_after(p_primary(toks, sc, p))),
        tok_at(toks, pos_after(p_primary(toks, sc, p))) == Some(t),
        p_primary(toks, sc, pos_after(p_primary(toks, sc, p)) + 1) is Some,
        advanced(
            toks,
            pos_after(p_primary(toks, sc, p)),
            pos_after(p_primary(toks, sc, pos_after(p_primary(toks, sc, p)) + 1)),
        ),
        tok_at(toks, pos_after(p_primary(toks, sc, pos_after(p_primary(toks, sc, p)) + 1))) matches Some(u) && (u
            != TokenView::Mul && u != TokenView::Div),
    ensures
        ({
            let (l, q) = p_primary(toks, sc, p)->0;
            let (r, q2) = p_primary(toks, sc, q + 1)->0;
            let op = if t == TokenView::Div {
                BinaryOp::Div
            } else {
                BinaryOp::Mul
            };
            p_term(toks, sc, p) == Some((ExprView::Binary(Box::new(l), op, Box::new(r)), q2))
        }),
{
    let (l, q) = p_primary(toks, sc, p)->0;
    let (r, q2) = p_primary(toks, sc, q + 1)->0;
    let op = if t == TokenView::Div {
        BinaryOp::Div
    } else {
        BinaryOp::Mul
    };
    assert(p_term_rest(toks, sc, q2, ExprView::Binary(Box::new(l), op, Box::new(r))) == Some(
        (ExprView::Binary(Box::new(l), op, Box::new(r)), q2),
    ));
}

/// Law: a sum or difference of two products joined by `+` or `-`, followed by
/// no further `+` or `-`, is parsed as that sum or difference, with the left
/// product as the left operand and the right as the right.
pub proof fn law_sum_operator(toks: Seq<TokenView>, sc: Scope, p: int, t: TokenView)
    requires
        t == TokenView::Add || t == TokenView::Mines,
        p_term(toks, sc, p) is Some,
        advanced(toks, p, pos_after(p_term(toks, sc, p))),
        tok_at(toks, pos_after(p_term(toks, sc, p))) == Some(t),
        p_term(toks, sc, pos_after(p_term(toks, sc, p)) + 1) is Some,
        advanced(
            toks,
            pos_after(p_term(toks, sc, p)),
            pos_after(p_term(toks, sc, pos_after(p_term(toks, sc, p)) + 1)),
        ),
        tok_at(toks, pos_after(p_term(toks, sc, pos_after(p_term(toks, sc, p)) + 1))) matches Some(u) && (u
            != TokenView::Add && u != TokenView::Mines),
    ensures
        ({
            let (l, q) = p_term(toks, sc, p)->0;
            let (r, q2) = p_term(toks, sc, q + 1)->0;
            let op = if t == TokenView::Add {
                BinaryOp::Add
            } else {
                BinaryOp::Sub
            };
            p_expr(toks, sc, p) == Some((ExprView::Binary(Box::new(l), op, Box::new(r)), q2))
        }),
{
    let (l, q) = p_term(toks, sc, p)->0;
    let (r, q2) = p_term(toks, sc, q + 1)->0;
    let op = if t == TokenView::Add {
        BinaryOp::Add
    } else {
        BinaryOp::Sub
    };
    assert(p_expr_rest(toks, sc, q2, ExprView::Binary(Box::new(l), op, Box::new(r))) == Some(
        (ExprView::Binary(Box::new(l), op, Box::new(r)), q2),
    ));
}

/// Law: a declaration `int name = e` or `float name = e` of a new name,
/// whose initial value `e` is arithmetic (an operator applied to two
/// operands), is accepted: it declares `name` with that type and value.
pub proof fn law_arithmetic_declaration(toks: Seq<TokenView>, st: PState, ty: Type)
    requires
        ty == Type::Int || ty == Type::Float,
        tok_at(toks, st.pos + 1) matches Some(TokenView::Identifier(name)) && find_var(
            st.locals,
            name,
        ) is None,
        tok_at(toks, st.pos + 2) == Some(TokenView::Assign),
        p_expr(toks, scope_of(st), st.pos + 3) matches Some((ExprView::Binary(_, _, _), _)),
    ensures
        ({
            let name = tok_at(toks, st.pos + 1)->0->Identifier_0;
            let (e, q) = p_expr(toks, scope_of(st), st.pos + 3)->0;
            let v = VarView { tipe: ty, value: e, name };
            p_decl(toks, st, ty) == Some(
                (
                    if ty == Type::Int {
                        StmtView::Int(v)
                    } else {
                        StmtView::Float(v)
                    },
                    PState { pos: q, locals: st.locals.push(v), ..st },
                ),
            )
        }),
{
}

} // verus!
