//! The recursive-descent parser. Each parsing function follows the function
//! of the same name in [`crate::grammar`] and gives `None` exactly where that
//! one does.
use crate::ast::{
    copy_params, params_view, StmtView, copy_sigs, exprs_view, lemma_exprs_view, lemma_exprs_view_push, lemma_stmts_view_push,
    sigs_view, stmts_view, vars_view, BinaryOp, CompareOp, Condition, Expr, Func, Funcall, FunType,
    IfBlock, LogicalOp, Loop, Param, Sig, Stmt, Type, Var, Vars, WhileBlock,
};
use crate::grammar::{
    builtin_sigs, lemma_func_progress, lemma_stmt_progress, p_func, p_if, p_loop, p_main,
    p_program, p_stmt, p_stmts, p_while, parse_tokens, body_tokens, decl_stmt, first_return, has_return, main_name, matching_close, p_decl,
    p_name_stmt, p_params, param_type, return_type, scope_of, PState, lemma_matching_close,
    lemma_params_progress,
    additive_op, advanced, args_fit, compare_op, expr_type, find_sig, find_var, fits_type,
    multiplicative_op, p_args, p_call, p_cond_atom, p_expr, p_expr_rest, p_primary, p_term,
    p_term_rest, p_and, p_or, tok_at, lemma_expr_progress, lemma_term_progress,
    lemma_primary_progress, lemma_args_progress, lemma_call_progress, lemma_cond_atom_progress,
    lemma_and_progress, lemma_or_progress, Scope,
};
use crate::token::{lex, tokens_view, try_tokenize, Token, TokenView};
use vstd::prelude::*;

verus! {

impl Vars {
    /// No variables.
    pub fn new() -> (r: Vars)
        ensures
            r@ == Seq::<crate::ast::VarView>::empty(),
    {
        Vars { vars: Vec::new() }
    }

    /// The index of the first variable named `name`.
    fn position(&self, name: &String) -> (r: Option<usize>)
        ensures
            match find_var(self@, name@) {
                Some(v) => r matches Some(i) && i < self.vars@.len() && self@[i as int] == v,
                None => r is None,
            },
    {
        let mut k: usize = 0;
        assert(self@.skip(0) =~= self@);
        while k < self.vars.len()
            invariant
                0 <= k <= self.vars@.len(),
                find_var(self@, name@) == find_var(self@.skip(k as int), name@),
            decreases self.vars@.len() - k,
        {
            assert(self@.skip(k as int)[0] == self@[k as int]);
            if self.vars[k].name == *name {
                return Some(k);
            }
            assert(self@.skip(k as int).drop_first() =~= self@.skip(k + 1));
            k = k + 1;
        }
        None
    }

    /// Whether a variable named `name` is declared.
    pub fn are_here(&self, name: &String) -> (b: bool)
        ensures
            b == find_var(self@, name@) is Some,
    {
        self.position(name).is_some()
    }

    /// A copy of the first variable named `name`, which must be declared.
    pub fn lookup_by_name(&self, name: &String) -> (r: Var)
        requires
            find_var(self@, name@) is Some,
        ensures
            r@ == find_var(self@, name@)->0,
    {
        match self.position(name) {
            Some(i) => self.vars[i].deep_copy(),
            None => Var { tipe: crate::ast::Type::Int, value: Box::new(Expr::Unset(None)), name: String::new() },
        }
    }

    /// Declares `var`, whose name must not be declared yet.
    pub fn save(&mut self, var: Var)
        requires
            find_var(old(self)@, var.name@) is None,
        ensures
            final(self)@ == old(self)@.push(var@),
    {
        let ghost before = self.vars@;
        self.vars.push(var);
        assert(vars_view(self.vars@) =~= vars_view(before).push(var@));
    }
}

/// The index of the first signature named `name`.
fn sig_position(funcs: &Vec<Sig>, name: &String) -> (r: Option<usize>)
    ensures
        match find_sig(sigs_view(funcs@), name@) {
            Some(g) => r matches Some(i) && i < funcs@.len() && sigs_view(funcs@)[i as int] == g,
            None => r is None,
        },
{
    let ghost fs = sigs_view(funcs@);
    let mut k: usize = 0;
    assert(fs.skip(0) =~= fs);
    while k < funcs.len()
        invariant
            fs == sigs_view(funcs@),
            0 <= k <= funcs@.len(),
            find_sig(fs, name@) == find_sig(fs.skip(k as int), name@),
        decreases funcs@.len() - k,
    {
        assert(fs.skip(k as int)[0] == fs[k as int]);
        if funcs[k].name == *name {
            return Some(k);
        }
        assert(fs.skip(k as int).drop_first() =~= fs.skip(k + 1));
        k = k + 1;
    }
    None
}

/// A copy of a token.
pub fn copy_token(t: &Token) -> (r: Token)
    ensures
        r@ == t@,
{
    match t {
        Token::Identifier(s) => Token::Identifier(s.clone()),
        Token::String(s) => Token::String(s.clone()),
        Token::FloatValue(s) => Token::FloatValue(s.clone()),
        Token::Number(n) => Token::Number(*n),
        Token::CharValue(c) => Token::CharValue(*c),
        Token::Func => Token::Func,
        Token::Return => Token::Return,
        Token::Rparen => Token::Rparen,
        Token::Lparen => Token::Lparen,
        Token::Lcurly => Token::Lcurly,
        Token::Rcurly => Token::Rcurly,
        Token::Comma => Token::Comma,
        Token::Assign => Token::Assign,
        Token::Mines => Token::Mines,
        Token::Float => Token::Float,
        Token::Add => Token::Add,
        Token::Char => Token::Char,
        Token::Mul => Token::Mul,
        Token::Loop => Token::Loop,
        Token::Div => Token::Div,
        Token::Int => Token::Int,
        Token::Str => Token::Str,
        Token::Else => Token::Else,
        Token::While => Token::While,
        Token::And => Token::And,
        Token::Break => Token::Break,
        Token::Continue => Token::Continue,
        Token::Or => Token::Or,
        Token::If => Token::If,
        Token::Less => Token::Less,
        Token::Greater => Token::Greater,
        Token::Equal => Token::Equal,
        Token::NotEqual => Token::NotEqual,
        Token::EOF => Token::EOF,
    }
}

/// The parser's state: the tokens, where it stands in them, the variables in
/// scope, the functions it knows and whether it is inside a loop body.
pub struct Parser {
    tokens: Vec<Token>,
    pos: usize,
    current_local: Vars,
    funcs: Vec<Sig>,
    in_while: bool,
}

impl Parser {
    pub closed spec fn toks(&self) -> Seq<TokenView> {
        tokens_view(self.tokens@)
    }

    pub closed spec fn pos_of(&self) -> int {
        self.pos as int
    }

    pub closed spec fn scope(&self) -> Scope {
        Scope { locals: self.current_local@, funcs: sigs_view(self.funcs@) }
    }

    pub closed spec fn in_loop(&self) -> bool {
        self.in_while
    }

    /// Parsing an expression leaves everything but the position as it was.
    pub open spec fn keeps_scope(&self, other: &Parser) -> bool {
        &&& self.toks() == other.toks()
        &&& self.scope() == other.scope()
        &&& self.in_loop() == other.in_loop()
    }

    /// A parser at the start of `tokens`, with no variables and no functions.
    pub fn new(tokens: Vec<Token>) -> (r: Parser)
        ensures
            r.toks() == tokens_view(tokens@),
            r.pos_of() == 0,
            r.scope() == (Scope { locals: seq![], funcs: seq![] }),
            !r.in_loop(),
    {
        let r = Parser { tokens, pos: 0, current_local: Vars::new(), funcs: Vec::new(), in_while: false };
        assert(sigs_view(r.funcs@) =~= seq![]);
        r
    }

    proof fn lemma_len(&self)
        ensures
            self.toks().len() == self.tokens.len(),
    {
    }

    /// The token at `p`.
    fn at(&self, p: usize) -> (r: Option<&Token>)
        ensures
            r is Some <==> p < self.tokens.len(),
            self.toks().len() == self.tokens@.len(),
            match tok_at(self.toks(), p as int) {
                Some(t) => r matches Some(x) && x@ == t,
                None => r is None,
            },
    {
        if p < self.tokens.len() {
            Some(&self.tokens[p])
        } else {
            None
        }
    }
}


/// The return type that corresponds to a variable type.
fn to_fun_type(t: Type) -> (f: FunType)
    ensures
        f == crate::grammar::fun_type_of(t),
{
    match t {
        Type::Int => FunType::Int,
        Type::Char => FunType::Char,
        Type::Bool => FunType::Bool,
        Type::Float => FunType::Float,
        Type::Str => FunType::Str,
    }
}

impl Parser {
    /// The type of an argument expression, where it can be told.
    fn get_type_out_expr(&self, e: &Expr) -> (r: Option<Type>)
        ensures
            r == expr_type(self.scope().locals, e@),
    {
        match e {
            Expr::Num(_) => Some(Type::Int),
            Expr::Bool(_) => Some(Type::Bool),
            Expr::Str(_) => Some(Type::Str),
            Expr::Binary(_, _, _) => Some(Type::Int),
            Expr::Float(_) => Some(Type::Float),
            Expr::Id(n) => match self.current_local.position(n) {
                Some(i) => Some(self.current_local.vars[i].tipe),
                None => None,
            },
            _ => None,
        }
    }

    /// Whether `e` may initialize a variable of type `tipe`.
    fn fits(&self, tipe: Type, e: &Expr) -> (b: bool)
        ensures
            b == fits_type(self.scope(), tipe, e@),
    {
        match e {
            Expr::Num(_) => tipe == Type::Int,
            Expr::Bool(_) => tipe == Type::Bool,
            Expr::Float(_) => tipe == Type::Float,
            Expr::Char(_) => tipe == Type::Char,
            Expr::Str(_) => tipe == Type::Str,
            Expr::Binary(_, _, _) => tipe == Type::Int || tipe == Type::Float,
            Expr::Id(n) => match self.current_local.position(n) {
                Some(i) => self.current_local.vars[i].tipe == tipe,
                None => false,
            },
            Expr::Func(c) => match sig_position(&self.funcs, &c.name) {
                Some(i) => match self.funcs[i].ty {
                    Some(f) => f == to_fun_type(tipe),
                    None => false,
                },
                None => false,
            },
            _ => false,
        }
    }

    /// Whether `args` agree in number and type with the parameters of the
    /// function at `gi`.
    fn check_args(&self, args: &Vec<Expr>, gi: usize) -> (b: bool)
        requires
            gi < self.funcs@.len(),
        ensures
            b == args_fit(
                self.scope().locals,
                exprs_view(args@),
                sigs_view(self.funcs@)[gi as int].args,
            ),
    {
        let params = &self.funcs[gi].args;
        let ghost pv = sigs_view(self.funcs@)[gi as int].args;
        assert(pv == crate::ast::params_view(params@));
        proof {
            lemma_exprs_view(args@);
        }
        if args.len() != params.len() {
            assert(exprs_view(args@).len() != pv.len());
            return false;
        }
        let mut i: usize = 0;
        while i < args.len()
            invariant
                0 <= i <= args@.len(),
                args@.len() == params@.len(),
                pv == crate::ast::params_view(params@),
                pv == sigs_view(self.funcs@)[gi as int].args,
                exprs_view(args@).len() == args@.len(),
                forall|k: int| 0 <= k < args@.len() ==> #[trigger] exprs_view(args@)[k] == args@[k]@,
                forall|k: int|
                    0 <= k < i ==> expr_type(self.scope().locals, #[trigger] exprs_view(args@)[k])
                        == Some(pv[k].ty),
            decreases args@.len() - i,
        {
            match self.get_type_out_expr(&args[i]) {
                Some(t) => {
                    if t != params[i].ty {
                        assert(expr_type(self.scope().locals, exprs_view(args@)[i as int]) != Some(
                            pv[i as int].ty,
                        ));
                        return false;
                    }
                },
                None => {
                    assert(expr_type(self.scope().locals, exprs_view(args@)[i as int]) != Some(
                        pv[i as int].ty,
                    ));
                    return false;
                },
            }
            i = i + 1;
        }
        true
    }

    /// An expression: products joined by `+` and `-`, grouped to the left.
    fn parse_expr(&mut self) -> (r: Option<Expr>)
        ensures
            final(self).keeps_scope(old(self)),
            match p_expr(old(self).toks(), old(self).scope(), old(self).pos_of()) {
                Some((e, q)) => r matches Some(x) && x@ == e && final(self).pos_of() == q,
                None => r is None,
            },
        decreases self.tokens@.len() - self.pos, 3int,
    {
        let ghost toks = self.toks();
        let ghost sc = self.scope();
        let ghost p0 = self.pos_of();
        let mut left = match self.parse_term() {
            Some(e) => e,
            None => {
                return None;
            },
        };
        proof {
            lemma_term_progress(toks, sc, p0);
        }
        loop
            invariant
                self.keeps_scope(old(self)),
                toks == self.toks(),
                sc == self.scope(),
                p0 == old(self).pos_of(),
                toks == old(self).toks(),
                sc == old(self).scope(),
                p0 < self.pos_of() <= toks.len(),
                p_expr(toks, sc, p0) == p_expr_rest(toks, sc, self.pos_of(), left@),
            decreases toks.len() - self.pos_of(),
        {
            let p = self.pos;
            let op = match self.at(p) {
                None => {
                    return None;
                },
                Some(Token::Add) => BinaryOp::Add,
                Some(Token::Mines) => BinaryOp::Sub,
                Some(_) => {
                    return Some(left);
                },
            };
            self.pos = p + 1;
            let right = match self.parse_term() {
                Some(e) => e,
                None => {
                    return None;
                },
            };
            proof {
                lemma_term_progress(toks, sc, p + 1);
            }
            left = Expr::Binary(Box::new(left), op, Box::new(right));
        }
    }

    /// A product: primaries joined by `*` and `/`, grouped to the left.
    fn parse_term(&mut self) -> (r: Option<Expr>)
        ensures
            final(self).keeps_scope(old(self)),
            match p_term(old(self).toks(), old(self).scope(), old(self).pos_of()) {
                Some((e, q)) => r matches Some(x) && x@ == e && final(self).pos_of() == q,
                None => r is None,
            },
        decreases self.tokens@.len() - self.pos, 2int,
    {
        let ghost toks = self.toks();
        let ghost sc = self.scope();
        let ghost p0 = self.pos_of();
        let mut left = match self.parse_primary_for_bianry() {
            Some(e) => e,
            None => {
                return None;
            },
        };
        proof {
            lemma_primary_progress(toks, sc, p0);
        }
        loop
            invariant
                self.keeps_scope(old(self)),
                toks == self.toks(),
                sc == self.scope(),
                p0 == old(self).pos_of(),
                toks == old(self).toks(),
                sc == old(self).scope(),
                p0 < self.pos_of() <= toks.len(),
                p_term(toks, sc, p0) == p_term_rest(toks, sc, self.pos_of(), left@),
            decreases toks.len() - self.pos_of(),
        {
            let p = self.pos;
            let op = match self.at(p) {
                None => {
                    return None;
                },
                Some(Token::Mul) => BinaryOp::Mul,
                Some(Token::Div) => BinaryOp::Div,
                Some(_) => {
                    return Some(left);
                },
            };
            self.pos = p + 1;
            let right = match self.parse_primary_for_bianry() {
                Some(e) => e,
                None => {
                    return None;
                },
            };
            proof {
                lemma_primary_progress(toks, sc, p + 1);
            }
            left = Expr::Binary(Box::new(left), op, Box::new(right));
        }
    }

    /// A literal, a name, a call or a parenthesized expression.
    fn parse_primary_for_bianry(&mut self) -> (r: Option<Expr>)
        ensures
            final(self).keeps_scope(old(self)),
            match p_primary(old(self).toks(), old(self).scope(), old(self).pos_of()) {
                Some((e, q)) => r matches Some(x) && x@ == e && final(self).pos_of() == q,
                None => r is None,
            },
        decreases self.tokens@.len() - self.pos, 1int,
    {
        let p = self.pos;
        if p >= self.tokens.len() {
            return None;
        }
        self.pos = p + 1;
        match &self.tokens[p] {
            Token::Number(v) => Some(Expr::Num(*v)),
            Token::CharValue(c) => Some(Expr::Char(*c)),
            Token::FloatValue(f) => Some(Expr::Float(f.clone())),
            Token::String(t) => Some(Expr::Str(t.clone())),
            Token::Identifier(n) => {
                let name = n.clone();
                if p + 1 >= self.tokens.len() {
                    return None;
                }
                if let Token::Lparen = &self.tokens[p + 1] {
                    self.pos = p + 2;
                    match self.try_parse_call_for_expr(name) {
                        Some(c) => Some(Expr::Func(c)),
                        None => None,
                    }
                } else {
                    Some(Expr::Id(name))
                }
            },
            Token::Lparen => {
                let e = match self.parse_expr() {
                    Some(e) => e,
                    None => {
                        return None;
                    },
                };
                let q = self.pos;
                match self.at(q) {
                    Some(Token::Rparen) => {
                        self.pos = q + 1;
                        Some(e)
                    },
                    _ => None,
                }
            },
            _ => None,
        }
    }

    /// The arguments of a call of `name` and its `)`, from after the `(`.
    fn try_parse_call_for_expr(&mut self, name: String) -> (r: Option<Funcall>)
        ensures
            final(self).keeps_scope(old(self)),
            match p_call(old(self).toks(), old(self).scope(), name@, old(self).pos_of()) {
                Some((c, q)) => r matches Some(x) && x@ == c && final(self).pos_of() == q,
                None => r is None,
            },
        decreases self.tokens@.len() - self.pos, 5int,
    {
        let ghost toks = self.toks();
        let ghost sc = self.scope();
        let ghost p0 = self.pos_of();
        let gi = match sig_position(&self.funcs, &name) {
            Some(i) => i,
            None => {
                return None;
            },
        };
        let args = match self.parse_args() {
            Some(a) => a,
            None => {
                return None;
            },
        };
        proof {
            lemma_args_progress(toks, sc, p0, seq![]);
        }
        if !self.check_args(&args, gi) {
            return None;
        }
        proof {
            self.lemma_len();
        }
        self.pos = self.pos + 1;
        Some(Funcall { name, args })
    }

    /// Argument expressions up to the `)`, which is left in place.
    fn parse_args(&mut self) -> (r: Option<Vec<Expr>>)
        ensures
            final(self).keeps_scope(old(self)),
            match p_args(old(self).toks(), old(self).scope(), old(self).pos_of(), seq![]) {
                Some((a, q)) => r matches Some(v) && exprs_view(v@) == a && final(self).pos_of()
                    == q,
                None => r is None,
            },
        decreases self.tokens@.len() - self.pos, 4int,
    {
        let ghost toks = self.toks();
        let ghost sc = self.scope();
        let ghost p0 = self.pos_of();
        let mut params: Vec<Expr> = Vec::new();
        assert(exprs_view(params@) =~= seq![]);
        loop
            invariant
                self.keeps_scope(old(self)),
                toks == self.toks(),
                sc == self.scope(),
                p0 == old(self).pos_of(),
                toks == old(self).toks(),
                sc == old(self).scope(),
                p0 <= self.pos_of(),
                self.pos_of() <= toks.len() || self.pos_of() == p0,
                p_args(toks, sc, p0, seq![]) == p_args(
                    toks,
                    sc,
                    self.pos_of(),
                    exprs_view(params@),
                ),
            decreases toks.len() - self.pos_of(),
        {
            let p = self.pos;
            match self.at(p) {
                None => {
                    return None;
                },
                Some(Token::Rparen) => {
                    return Some(params);
                },
                Some(_) => {},
            }
            let e = match self.parse_expr() {
                Some(e) => e,
                None => {
                    return None;
                },
            };
            proof {
                lemma_expr_progress(toks, sc, p as int);
                lemma_exprs_view_push(params@, e);
            }
            params.push(e);
            let q = self.pos;
            match self.at(q) {
                None => {
                    return None;
                },
                Some(Token::Comma) => {
                    self.pos = q + 1;
                },
                Some(_) => {},
            }
        }
    }

    /// An expression that may initialize a variable of type `tipe`.
    fn try_check_expr(&mut self, tipe: Type) -> (r: Option<Expr>)
        ensures
            final(self).keeps_scope(old(self)),
            match p_expr(old(self).toks(), old(self).scope(), old(self).pos_of()) {
                Some((e, q)) => if fits_type(old(self).scope(), tipe, e) {
                    r matches Some(x) && x@ == e && final(self).pos_of() == q
                } else {
                    r is None
                },
                None => r is None,
            },
    {
        let e = match self.parse_expr() {
            Some(e) => e,
            None => {
                return None;
            },
        };
        if self.fits(tipe, &e) {
            Some(e)
        } else {
            None
        }
    }
}


impl Parser {
    /// A comparison, or an expression standing alone before `{`, `||` or `&&`.
    fn try_parse_cond_atom(&mut self) -> (r: Option<Condition>)
        ensures
            final(self).keeps_scope(old(self)),
            match p_cond_atom(old(self).toks(), old(self).scope(), old(self).pos_of()) {
                Some((c, q)) => r matches Some(x) && x@ == c && final(self).pos_of() == q,
                None => r is None,
            },
    {
        let left = match self.parse_expr() {
            Some(e) => e,
            None => {
                return None;
            },
        };
        let q = self.pos;
        let op = match self.at(q) {
            None => {
                return None;
            },
            Some(Token::Equal) => CompareOp::Equal,
            Some(Token::NotEqual) => CompareOp::NotEqual,
            Some(Token::Less) => CompareOp::Less,
            Some(Token::Greater) => CompareOp::Greater,
            Some(Token::Lcurly) | Some(Token::Or) | Some(Token::And) => {
                return Some(Condition::OnlyOne(Box::new(left)));
            },
            Some(_) => {
                return None;
            },
        };
        self.pos = q + 1;
        let right = match self.parse_expr() {
            Some(e) => e,
            None => {
                return None;
            },
        };
        Some(Condition::Compare { left: Box::new(left), op, right: Box::new(right) })
    }

    /// Atoms joined by `&&`, grouped to the right.
    fn parse_and(&mut self) -> (r: Option<Condition>)
        ensures
            final(self).keeps_scope(old(self)),
            match p_and(old(self).toks(), old(self).scope(), old(self).pos_of()) {
                Some((c, q)) => r matches Some(x) && x@ == c && final(self).pos_of() == q,
                None => r is None,
            },
        decreases self.tokens@.len() - self.pos,
    {
        let ghost toks = self.toks();
        let ghost sc = self.scope();
        let ghost p0 = self.pos_of();
        let left = match self.try_parse_cond_atom() {
            Some(c) => c,
            None => {
                return None;
            },
        };
        proof {
            lemma_cond_atom_progress(toks, sc, p0);
        }
        let q = self.pos;
        if let Some(Token::And) = self.at(q) {
            self.pos = q + 1;
            let right = match self.parse_and() {
                Some(c) => c,
                None => {
                    return None;
                },
            };
            Some(
                Condition::LogicalCompare {
                    left: Box::new(left),
                    op: LogicalOp::And,
                    right: Box::new(right),
                },
            )
        } else {
            Some(left)
        }
    }

    /// Conjunctions joined by `||`, grouped to the right.
    fn parse_or(&mut self) -> (r: Option<Condition>)
        ensures
            final(self).keeps_scope(old(self)),
            match p_or(old(self).toks(), old(self).scope(), old(self).pos_of()) {
                Some((c, q)) => r matches Some(x) && x@ == c && final(self).pos_of() == q,
                None => r is None,
            },
        decreases self.tokens@.len() - self.pos,
    {
        let ghost toks = self.toks();
        let ghost sc = self.scope();
        let ghost p0 = self.pos_of();
        let left = match self.parse_and() {
            Some(c) => c,
            None => {
                return None;
            },
        };
        proof {
            lemma_and_progress(toks, sc, p0);
        }
        let q = self.pos;
        if let Some(Token::Or) = self.at(q) {
            self.pos = q + 1;
            let right = match self.parse_or() {
                Some(c) => c,
                None => {
                    return None;
                },
            };
            Some(
                Condition::LogicalCompare {
                    left: Box::new(left),
                    op: LogicalOp::Or,
                    right: Box::new(right),
                },
            )
        } else {
            Some(left)
        }
    }
}


/// The statements `acc`, followed by those of `r` when `r` parses.
pub open spec fn glue_stmts(
    acc: Seq<crate::ast::StmtView>,
    r: Option<(Seq<crate::ast::StmtView>, PState)>,
) -> Option<(Seq<crate::ast::StmtView>, PState)> {
    match r {
        Some((rest, st)) => Some((acc + rest, st)),
        None => None,
    }
}

/// Whether `name` is `main`.
fn is_main(name: &String) -> (b: bool)
    ensures
        b == (name@ == main_name()),
{
    let m = String::from_str("main");
    proof {
        reveal_strlit("main");
    }
    assert(m@ =~= main_name());
    *name == m
}

/// The first statement of `code` that returns a value, if any.
fn first_return_of(code: &Vec<Stmt>) -> (r: Option<&Expr>)
    ensures
        match first_return(stmts_view(code@)) {
            Some(e) => r matches Some(x) && x@ == e,
            None => r is None,
        },
{
    let ghost sv = stmts_view(code@);
    proof {
        crate::ast::lemma_stmts_view(code@);
    }
    let mut k: usize = 0;
    assert(sv.skip(0) =~= sv);
    while k < code.len()
        invariant
            sv == stmts_view(code@),
            sv.len() == code@.len(),
            forall|i: int| 0 <= i < code@.len() ==> #[trigger] sv[i] == code@[i]@,
            0 <= k <= code@.len(),
            first_return(sv) == first_return(sv.skip(k as int)),
        decreases code@.len() - k,
    {
        assert(sv.skip(k as int)[0] == sv[k as int]);
        if let Stmt::ReturnStmt(e) = &code[k] {
            return Some(&**e);
        }
        assert(sv.skip(k as int).drop_first() =~= sv.skip(k + 1));
        k = k + 1;
    }
    assert(sv.skip(k as int).len() == 0);
    None
}

/// Whether some statement of `code` is a `return`.
fn has_return_stmt(code: &Vec<Stmt>) -> (b: bool)
    ensures
        b == has_return(stmts_view(code@)),
{
    let ghost sv = stmts_view(code@);
    proof {
        crate::ast::lemma_stmts_view(code@);
    }
    let mut k: usize = 0;
    while k < code.len()
        invariant
            sv == stmts_view(code@),
            sv.len() == code@.len(),
            forall|i: int| 0 <= i < code@.len() ==> #[trigger] sv[i] == code@[i]@,
            0 <= k <= code@.len(),
            forall|i: int| 0 <= i < k ==> !(#[trigger] sv[i] is ReturnStmt),
        decreases code@.len() - k,
    {
        if let Stmt::ReturnStmt(_) = &code[k] {
            assert(sv[k as int] is ReturnStmt);
            return true;
        }
        k = k + 1;
    }
    false
}

impl Parser {
    pub closed spec fn state(&self) -> PState {
        PState { pos: self.pos as int, locals: self.current_local@, funcs: sigs_view(self.funcs@) }
    }

    proof fn lemma_scope(&self)
        ensures
            scope_of(self.state()) == self.scope(),
            self.state().pos == self.pos_of(),
    {
    }

    /// The position of the `}` that closes the block whose body starts at `start`.
    fn find_close(&self, start: usize) -> (r: Option<usize>)
        ensures
            match matching_close(self.toks(), start as int, 0) {
                Some(q) => r == Some(q as usize),
                None => r is None,
            },
    {
        let ghost toks = self.toks();
        let mut depth: usize = 0;
        let mut p = start;
        while p < self.tokens.len()
            invariant
                toks == self.toks(),
                toks.len() == self.tokens@.len(),
                start <= p,
                depth <= p - start,
                matching_close(toks, start as int, 0) == matching_close(
                    toks,
                    p as int,
                    depth as nat,
                ),
            decreases self.tokens@.len() - p,
        {
            match &self.tokens[p] {
                Token::Lcurly => {
                    depth = depth + 1;
                },
                Token::Rcurly => {
                    if depth == 0 {
                        return Some(p);
                    }
                    depth = depth - 1;
                },
                _ => {},
            }
            p = p + 1;
        }
        None
    }

    /// A parser for the block body `start..end`, ended by `EOF`, with the
    /// variables `locals`, the functions known here and the loop flag `in_while`.
    fn sub_parser(&self, start: usize, end: usize, locals: Vars, in_while: bool) -> (r: Parser)
        requires
            start <= end < self.tokens@.len(),
        ensures
            r.toks() == body_tokens(self.toks(), start as int, end as int),
            r.tokens@.len() == end - start + 1,
            r.pos_of() == 0,
            r.scope() == (Scope { locals: locals@, funcs: self.scope().funcs }),
            r.in_loop() == in_while,
    {
        let ghost toks = self.toks();
        let mut out: Vec<Token> = Vec::new();
        let mut k = start;
        while k < end
            invariant
                toks == self.toks(),
                toks.len() == self.tokens@.len(),
                start <= k <= end < self.tokens@.len(),
                tokens_view(out@) == toks.subrange(start as int, k as int),
            decreases end - k,
        {
            let t = copy_token(&self.tokens[k]);
            let ghost before = out@;
            out.push(t);
            assert(out@ =~= before.push(t));
            assert(toks[k as int] == self.tokens@[k as int]@);
            assert(tokens_view(out@) =~= tokens_view(before).push(t@));
            assert(toks.subrange(start as int, k + 1) =~= toks.subrange(start as int, k as int).push(
                toks[k as int],
            ));
            k = k + 1;
        }
        let ghost before = out@;
        out.push(Token::EOF);
        assert(tokens_view(out@) =~= tokens_view(before).push(TokenView::EOF));
        Parser { tokens: out, pos: 0, current_local: locals, funcs: copy_sigs(&self.funcs), in_while }
    }

    /// The return type of a function whose body declares `locals` and whose
    /// first `return` gives `e`.
    fn return_type_of(&self, e: &Expr, locals: &Vars) -> (r: Option<Option<FunType>>)
        ensures
            r == return_type(e@, locals@, self.scope().funcs),
    {
        match e {
            Expr::Num(_) => Some(Some(FunType::Int)),
            Expr::Char(_) => Some(Some(FunType::Char)),
            Expr::Bool(_) => Some(Some(FunType::Bool)),
            Expr::Str(_) => Some(Some(FunType::Str)),
            Expr::Binary(_, _, _) => Some(Some(FunType::Int)),
            Expr::Func(c) => match sig_position(&self.funcs, &c.name) {
                Some(i) => Some(self.funcs[i].ty),
                None => None,
            },
            Expr::Id(n) => match locals.position(n) {
                Some(i) => Some(Some(to_fun_type(locals.vars[i].tipe))),
                None => None,
            },
            _ => None,
        }
    }

    /// `t name = value` for the declaration keyword at the current token,
    /// which declares type `ty`.
    fn parse_declaration(&mut self, ty: Type) -> (r: Option<Stmt>)
        requires
            old(self).pos < old(self).tokens.len(),
        ensures
            final(self).toks() == old(self).toks(),
            final(self).in_loop() == old(self).in_loop(),
            match p_decl(old(self).toks(), old(self).state(), ty) {
                Some((s, st2)) => r matches Some(x) && x@ == s && final(self).state() == st2,
                None => r is None,
            },
    {
        proof {
            self.lemma_scope();
        }
        let p = self.pos;
        let name = match self.at(p + 1) {
            Some(Token::Identifier(n)) => n.clone(),
            _ => {
                return None;
            },
        };
        match self.at(p + 2) {
            Some(Token::Assign) => {},
            _ => {
                return None;
            },
        }
        self.pos = p + 3;
        let e = match self.try_check_expr(ty) {
            Some(e) => e,
            None => {
                return None;
            },
        };
        if self.current_local.are_here(&name) {
            return None;
        }
        let var = Var { tipe: ty, value: Box::new(e), name };
        let copy = var.deep_copy();
        self.current_local.save(var);
        match ty {
            Type::Int => Some(Stmt::Int(copy)),
            Type::Char => Some(Stmt::Char(copy)),
            Type::Str => Some(Stmt::Str(copy)),
            Type::Float => Some(Stmt::Float(copy)),
            Type::Bool => Some(Stmt::Bool(copy)),
        }
    }

    fn parse_int(&mut self) -> (r: Option<Stmt>)
        requires
            old(self).pos < old(self).tokens.len(),
        ensures
            final(self).toks() == old(self).toks(),
            final(self).in_loop() == old(self).in_loop(),
            match p_decl(old(self).toks(), old(self).state(), Type::Int) {
                Some((s, st2)) => r matches Some(x) && x@ == s && final(self).state() == st2,
                None => r is None,
            },
    {
        self.parse_declaration(Type::Int)
    }

    fn parse_char(&mut self) -> (r: Option<Stmt>)
        requires
            old(self).pos < old(self).tokens.len(),
        ensures
            final(self).toks() == old(self).toks(),
            final(self).in_loop() == old(self).in_loop(),
            match p_decl(old(self).toks(), old(self).state(), Type::Char) {
                Some((s, st2)) => r matches Some(x) && x@ == s && final(self).state() == st2,
                None => r is None,
            },
    {
        self.parse_declaration(Type::Char)
    }

    fn parse_str(&mut self) -> (r: Option<Stmt>)
        requires
            old(self).pos < old(self).tokens.len(),
        ensures
            final(self).toks() == old(self).toks(),
            final(self).in_loop() == old(self).in_loop(),
            match p_decl(old(self).toks(), old(self).state(), Type::Str) {
                Some((s, st2)) => r matches Some(x) && x@ == s && final(self).state() == st2,
                None => r is None,
            },
    {
        self.parse_declaration(Type::Str)
    }

    fn parse_float(&mut self) -> (r: Option<Stmt>)
        requires
            old(self).pos < old(self).tokens.len(),
        ensures
            final(self).toks() == old(self).toks(),
            final(self).in_loop() == old(self).in_loop(),
            match p_decl(old(self).toks(), old(self).state(), Type::Float) {
                Some((s, st2)) => r matches Some(x) && x@ == s && final(self).state() == st2,
                None => r is None,
            },
    {
        self.parse_declaration(Type::Float)
    }

    /// `name = value`, or the call statement `name(args)`, for the name at
    /// the current token.
    fn try_parse_call(&mut self, name: String) -> (r: Option<Stmt>)
        requires
            old(self).pos < old(self).tokens.len(),
        ensures
            final(self).toks() == old(self).toks(),
            final(self).in_loop() == old(self).in_loop(),
            match p_name_stmt(old(self).toks(), old(self).state(), name@) {
                Some((s, st2)) => r matches Some(x) && x@ == s && final(self).state() == st2,
                None => r is None,
            },
    {
        proof {
            self.lemma_scope();
        }
        let p = self.pos;
        match self.at(p + 1) {
            None => {
                return None;
            },
            Some(Token::Lparen) => {
                self.pos = p + 2;
                return match self.try_parse_call_for_expr(name) {
                    Some(c) => Some(Stmt::Funcall(c)),
                    None => None,
                };
            },
            Some(Token::Assign) => {},
            Some(_) => {
                return None;
            },
        }
        if !self.current_local.are_here(&name) {
            return None;
        }
        self.pos = p + 2;
        let value = match self.parse_expr() {
            Some(e) => e,
            None => {
                return None;
            },
        };
        Some(Stmt::Assign { name, value: Box::new(value) })
    }
}


proof fn lemma_glue_stmts(acc: Seq<StmtView>, s: StmtView, r: Option<(Seq<StmtView>, PState)>)
    ensures
        glue_stmts(
            acc,
            match r {
                Some((rest, st3)) => Some((seq![s] + rest, st3)),
                None => None,
            },
        ) == glue_stmts(acc.push(s), r),
{
    if let Some((rest, st3)) = r {
        assert(acc + (seq![s] + rest) =~= acc.push(s) + rest);
    }
}

impl Parser {
    /// Statements up to the `EOF`, which is left in place.
    fn parse_for_func(&mut self) -> (r: Option<Vec<Stmt>>)
        ensures
            final(self).toks() == old(self).toks(),
            final(self).in_loop() == old(self).in_loop(),
            match p_stmts(old(self).toks(), old(self).in_loop(), old(self).state()) {
                Some((ss, st2)) => r matches Some(v) && stmts_view(v@) == ss && final(self).state()
                    == st2,
                None => r is None,
            },
        decreases self.tokens@.len() - self.pos, 3int,
    {
        let ghost toks = self.toks();
        let ghost w = self.in_loop();
        let ghost st0 = self.state();
        let mut stmts: Vec<Stmt> = Vec::new();
        assert(stmts_view(stmts@) + seq![] =~= seq![]);
        assert(glue_stmts(stmts_view(stmts@), p_stmts(toks, w, st0)) == p_stmts(toks, w, st0)) by {
            if let Some((ss, st2)) = p_stmts(toks, w, st0) {
                assert(stmts_view(stmts@) + ss =~= ss);
            }
        }
        loop
            invariant
                toks == self.toks(),
                w == self.in_loop(),
                toks == old(self).toks(),
                w == old(self).in_loop(),
                st0 == old(self).state(),
                st0.pos <= self.pos_of(),
                self.pos_of() <= toks.len() || self.pos_of() == st0.pos,
                p_stmts(toks, w, st0) == glue_stmts(stmts_view(stmts@), p_stmts(toks, w, self.state())),
            decreases toks.len() - self.pos_of(),
        {
            let p = self.pos;
            match self.at(p) {
                None => {
                    return None;
                },
                Some(Token::EOF) => {
                    assert(stmts_view(stmts@) + seq![] =~= stmts_view(stmts@));
                    return Some(stmts);
                },
                Some(_) => {},
            }
            let ghost stp = self.state();
            let s = match self.try_parse_stmt_for_func() {
                Some(s) => s,
                None => {
                    return None;
                },
            };
            proof {
                lemma_stmt_progress(toks, w, stp);
                lemma_stmts_view_push(stmts@, s);
                lemma_glue_stmts(stmts_view(stmts@), s@, p_stmts(toks, w, self.state()));
            }
            stmts.push(s);
        }
    }

    /// One statement.
    fn try_parse_stmt_for_func(&mut self) -> (r: Option<Stmt>)
        ensures
            final(self).toks() == old(self).toks(),
            final(self).in_loop() == old(self).in_loop(),
            match p_stmt(old(self).toks(), old(self).in_loop(), old(self).state()) {
                Some((s, st2)) => r matches Some(x) && x@ == s && final(self).state() == st2,
                None => r is None,
            },
        decreases self.tokens@.len() - self.pos, 2int,
    {
        proof {
            self.lemma_scope();
        }
        let p = self.pos;
        if p >= self.tokens.len() {
            return None;
        }
        match &self.tokens[p] {
            Token::Int => self.parse_int(),
            Token::Char => self.parse_char(),
            Token::Str => self.parse_str(),
            Token::Float => self.parse_float(),
            Token::Return => self.parse_return(),
            Token::Continue => if self.in_while {
                Some(self.do_continue())
            } else {
                None
            },
            Token::Break => if self.in_while {
                Some(self.do_break())
            } else {
                None
            },
            Token::Func => self.try_parse_func(),
            Token::If => self.parse_if(),
            Token::While => self.parse_while(),
            Token::Loop => self.try_parse_loop(),
            Token::Identifier(n) => {
                let name = n.clone();
                self.try_parse_call(name)
            },
            _ => None,
        }
    }

    /// `return value`.
    fn parse_return(&mut self) -> (r: Option<Stmt>)
        requires
            old(self).pos < old(self).tokens.len(),
            tok_at(old(self).toks(), old(self).pos_of()) == Some(TokenView::Return),
        ensures
            final(self).toks() == old(self).toks(),
            final(self).in_loop() == old(self).in_loop(),
            match p_stmt(old(self).toks(), old(self).in_loop(), old(self).state()) {
                Some((s, st2)) => r matches Some(x) && x@ == s && final(self).state() == st2,
                None => r is None,
            },
    {
        proof {
            self.lemma_scope();
        }
        self.pos = self.pos + 1;
        match self.parse_expr() {
            Some(e) => Some(Stmt::ReturnStmt(Box::new(e))),
            None => None,
        }
    }

    /// `break`, allowed only inside a loop body.
    fn do_break(&mut self) -> (r: Stmt)
        requires
            old(self).pos < old(self).tokens.len(),
            tok_at(old(self).toks(), old(self).pos_of()) == Some(TokenView::Break),
            old(self).in_loop(),
        ensures
            final(self).toks() == old(self).toks(),
            final(self).in_loop() == old(self).in_loop(),
            p_stmt(old(self).toks(), old(self).in_loop(), old(self).state()) matches Some((s, st2))
                && r@ == s && final(self).state() == st2,
    {
        self.pos = self.pos + 1;
        Stmt::Break
    }

    /// `continue`, allowed only inside a loop body.
    fn do_continue(&mut self) -> (r: Stmt)
        requires
            old(self).pos < old(self).tokens.len(),
            tok_at(old(self).toks(), old(self).pos_of()) == Some(TokenView::Continue),
            old(self).in_loop(),
        ensures
            final(self).toks() == old(self).toks(),
            final(self).in_loop() == old(self).in_loop(),
            p_stmt(old(self).toks(), old(self).in_loop(), old(self).state()) matches Some((s, st2))
                && r@ == s && final(self).state() == st2,
    {
        self.pos = self.pos + 1;
        Stmt::Continue
    }

    /// `if cond { .. }`, with an optional `else { .. }`.
    fn parse_if(&mut self) -> (r: Option<Stmt>)
        requires
            old(self).pos < old(self).tokens.len(),
        ensures
            final(self).toks() == old(self).toks(),
            final(self).in_loop() == old(self).in_loop(),
            match p_if(old(self).toks(), old(self).in_loop(), old(self).state()) {
                Some((s, st2)) => r matches Some(x) && x@ == s && final(self).state() == st2,
                None => r is None,
            },
        decreases self.tokens@.len() - self.pos, 1int,
    {
        proof {
            self.lemma_scope();
            self.lemma_len();
        }
        let ghost toks = self.toks();
        let ghost st0 = self.state();
        let p = self.pos;
        self.pos = p + 1;
        let cond = match self.parse_or() {
            Some(c) => c,
            None => {
                return None;
            },
        };
        proof {
            lemma_or_progress(toks, scope_of(st0), p + 1);
        }
        let q = self.pos;
        if q >= self.tokens.len() {
            return None;
        }
        let e = match self.find_close(q + 1) {
            Some(e) => e,
            None => {
                return None;
            },
        };
        proof {
            lemma_matching_close(toks, q + 1, 0);
        }
        let after = e + 1;
        let mut elsepart: Option<Vec<Stmt>> = None;
        let mut end = after;
        match self.at(after) {
            None => {
                return None;
            },
            Some(Token::Else) => {
                if after + 1 >= self.tokens.len() {
                    return None;
                }
                let e2 = match self.find_close(after + 2) {
                    Some(e2) => e2,
                    None => {
                        return None;
                    },
                };
                proof {
                    lemma_matching_close(toks, after + 2, 0);
                }
                let mut ep = self.sub_parser(
                    after + 2,
                    e2,
                    self.current_local.deep_copy(),
                    self.in_while,
                );
                let els = match ep.parse_for_func() {
                    Some(v) => v,
                    None => {
                        return None;
                    },
                };
                elsepart = Some(els);
                end = e2 + 1;
            },
            Some(_) => {},
        }
        let mut tp = self.sub_parser(q + 1, e, self.current_local.deep_copy(), self.in_while);
        let code = match tp.parse_for_func() {
            Some(v) => v,
            None => {
                return None;
            },
        };
        self.pos = end;
        Some(Stmt::If(IfBlock { cond, code, locals: tp.current_local, elsepart }))
    }

    /// `while cond { .. }`.
    fn parse_while(&mut self) -> (r: Option<Stmt>)
        requires
            old(self).pos < old(self).tokens.len(),
        ensures
            final(self).toks() == old(self).toks(),
            final(self).in_loop() == old(self).in_loop(),
            match p_while(old(self).toks(), old(self).state()) {
                Some((s, st2)) => r matches Some(x) && x@ == s && final(self).state() == st2,
                None => r is None,
            },
        decreases self.tokens@.len() - self.pos, 1int,
    {
        proof {
            self.lemma_scope();
            self.lemma_len();
        }
        let ghost toks = self.toks();
        let ghost st0 = self.state();
        let p = self.pos;
        self.pos = p + 1;
        let cond = match self.parse_and() {
            Some(c) => c,
            None => {
                return None;
            },
        };
        proof {
            lemma_and_progress(toks, scope_of(st0), p + 1);
        }
        let q = self.pos;
        if q >= self.tokens.len() {
            return None;
        }
        let e = match self.find_close(q + 1) {
            Some(e) => e,
            None => {
                return None;
            },
        };
        proof {
            lemma_matching_close(toks, q + 1, 0);
        }
        let mut sub = self.sub_parser(q + 1, e, self.current_local.deep_copy(), true);
        let code = match sub.parse_for_func() {
            Some(v) => v,
            None => {
                return None;
            },
        };
        self.pos = e + 1;
        Some(Stmt::While(WhileBlock { cond, code, locals: sub.current_local }))
    }

    /// `loop { .. }`.
    fn try_parse_loop(&mut self) -> (r: Option<Stmt>)
        requires
            old(self).pos < old(self).tokens.len(),
        ensures
            final(self).toks() == old(self).toks(),
            final(self).in_loop() == old(self).in_loop(),
            match p_loop(old(self).toks(), old(self).state()) {
                Some((s, st2)) => r matches Some(x) && x@ == s && final(self).state() == st2,
                None => r is None,
            },
        decreases self.tokens@.len() - self.pos, 1int,
    {
        proof {
            self.lemma_len();
        }
        let ghost toks = self.toks();
        let p = self.pos;
        match self.at(p + 1) {
            Some(Token::Lcurly) => {},
            _ => {
                return None;
            },
        }
        let e = match self.find_close(p + 2) {
            Some(e) => e,
            None => {
                return None;
            },
        };
        proof {
            lemma_matching_close(toks, p + 2, 0);
        }
        let mut sub = self.sub_parser(p + 2, e, self.current_local.deep_copy(), true);
        let code = match sub.parse_for_func() {
            Some(v) => v,
            None => {
                return None;
            },
        };
        self.pos = e + 1;
        Some(Stmt::Loop(Loop { locals: sub.current_local, code }))
    }
}


impl Parser {
    /// The type of a parameter keyword, consuming it.
    fn parse_func_args(&mut self) -> (r: Option<Type>)
        ensures
            final(self).toks() == old(self).toks(),
            final(self).in_loop() == old(self).in_loop(),
            final(self).scope() == old(self).scope(),
            match tok_at(old(self).toks(), old(self).pos_of()) {
                Some(t) => r == param_type(t) && (r is Some ==> final(self).pos_of() == old(
                    self,
                ).pos_of() + 1),
                None => r is None,
            },
    {
        let p = self.pos;
        let t = match self.at(p) {
            Some(Token::Int) => Type::Int,
            Some(Token::Str) => Type::Str,
            Some(Token::Float) => Type::Float,
            _ => {
                return None;
            },
        };
        self.pos = p + 1;
        Some(t)
    }

    /// Parameters up to the `)`, which is left in place, with the variables
    /// they declare.
    fn parse_params(&mut self) -> (r: Option<(Vec<Param>, Vars)>)
        ensures
            final(self).toks() == old(self).toks(),
            final(self).in_loop() == old(self).in_loop(),
            final(self).scope() == old(self).scope(),
            match p_params(old(self).toks(), old(self).pos_of(), seq![], seq![]) {
                Some((a, v, q)) => r matches Some((pa, pv)) && params_view(pa@) == a && pv@ == v
                    && final(self).pos_of() == q,
                None => r is None,
            },
    {
        let ghost toks = self.toks();
        let ghost p0 = self.pos_of();
        let mut args: Vec<Param> = Vec::new();
        let mut locals = Vars::new();
        assert(params_view(args@) =~= seq![]);
        loop
            invariant
                toks == self.toks(),
                toks == old(self).toks(),
                self.in_loop() == old(self).in_loop(),
                self.scope() == old(self).scope(),
                p0 == old(self).pos_of(),
                p0 <= self.pos_of(),
                self.pos_of() <= toks.len() || self.pos_of() == p0,
                p_params(toks, p0, seq![], seq![]) == p_params(
                    toks,
                    self.pos_of(),
                    params_view(args@),
                    locals@,
                ),
            decreases toks.len() - self.pos_of(),
        {
            let p = self.pos;
            match self.at(p) {
                None => {
                    return None;
                },
                Some(Token::Rparen) => {
                    return Some((args, locals));
                },
                Some(_) => {},
            }
            let ty = match self.parse_func_args() {
                Some(t) => t,
                None => {
                    return None;
                },
            };
            let name = match self.at(p + 1) {
                Some(Token::Identifier(n)) => n.clone(),
                _ => {
                    return None;
                },
            };
            if locals.are_here(&name) {
                return None;
            }
            let ghost before = args@;
            args.push(Param { name: name.clone(), ty });
            assert(params_view(args@) =~= params_view(before).push(
                crate::ast::ParamView { name: name@, ty },
            ));
            locals.save(Var { tipe: ty, value: Box::new(Expr::Unset(None)), name });
            match self.at(p + 2) {
                None => {
                    return None;
                },
                Some(Token::Comma) => {
                    self.pos = p + 3;
                },
                Some(_) => {
                    self.pos = p + 2;
                },
            }
        }
    }

    /// `func name(params) { .. }`, or the `main` function.
    fn try_parse_func(&mut self) -> (r: Option<Stmt>)
        requires
            old(self).pos < old(self).tokens.len(),
        ensures
            final(self).toks() == old(self).toks(),
            final(self).in_loop() == old(self).in_loop(),
            match p_func(old(self).toks(), old(self).state()) {
                Some((s, st2)) => r matches Some(x) && x@ == s && final(self).state() == st2,
                None => r is None,
            },
        decreases self.tokens@.len() - self.pos, 1int,
    {
        proof {
            self.lemma_scope();
            self.lemma_len();
        }
        let ghost toks = self.toks();
        let ghost st0 = self.state();
        let p = self.pos;
        let name = match self.at(p + 1) {
            Some(Token::Identifier(n)) => n.clone(),
            _ => {
                return None;
            },
        };
        if is_main(&name) {
            self.pos = p + 2;
            return self.try_parse_main_func();
        }
        match self.at(p + 2) {
            Some(Token::Lparen) => {},
            _ => {
                return None;
            },
        }
        self.pos = p + 3;
        let (args, locals) = match self.parse_params() {
            Some(x) => x,
            None => {
                return None;
            },
        };
        proof {
            lemma_params_progress(toks, p + 3, seq![], seq![]);
        }
        let r = self.pos;
        match self.at(r + 1) {
            Some(Token::Lcurly) => {},
            _ => {
                return None;
            },
        }
        let e = match self.find_close(r + 2) {
            Some(e) => e,
            None => {
                return None;
            },
        };
        proof {
            lemma_matching_close(toks, r + 2, 0);
        }
        let mut sub = self.sub_parser(r + 2, e, locals, false);
        let code = match sub.parse_for_func() {
            Some(v) => v,
            None => {
                return None;
            },
        };
        let returnv: Option<Expr> = match first_return_of(&code) {
            Some(v) => Some(v.deep_copy()),
            None => None,
        };
        let ty: Option<FunType> = match &returnv {
            Some(v) => match self.return_type_of(v, &sub.current_local) {
                Some(t) => t,
                None => {
                    return None;
                },
            },
            None => None,
        };
        let ghost fs = self.funcs@;
        self.funcs.push(Sig { name: name.clone(), args: copy_params(&args), ty });
        assert(sigs_view(self.funcs@) =~= sigs_view(fs).push(
            crate::ast::SigView { name: name@, args: params_view(args@), ty },
        ));
        self.pos = e + 1;
        Some(Stmt::Func(Func { args, code, name, ty, returnv, locals: sub.current_local }))
    }

    /// The rest of `func main() { .. }`, after the name.
    fn try_parse_main_func(&mut self) -> (r: Option<Stmt>)
        ensures
            final(self).toks() == old(self).toks(),
            final(self).in_loop() == old(self).in_loop(),
            match p_main(old(self).toks(), old(self).state()) {
                Some((s, st2)) => r matches Some(x) && x@ == s && final(self).state() == st2,
                None => r is None,
            },
        decreases self.tokens@.len() - self.pos, 0int,
    {
        proof {
            self.lemma_len();
        }
        let ghost toks = self.toks();
        let p = self.pos;
        match self.at(p) {
            None => {
                return None;
            },
            Some(Token::Lparen) => {},
            Some(_) => match self.at(p + 1) {
                Some(Token::Rparen) => {},
                _ => {
                    return None;
                },
            },
        }
        if p + 1 >= self.tokens.len() {
            return None;
        }
        match self.at(p + 2) {
            Some(Token::Lcurly) => {},
            _ => {
                return None;
            },
        }
        let e = match self.find_close(p + 3) {
            Some(e) => e,
            None => {
                return None;
            },
        };
        proof {
            lemma_matching_close(toks, p + 3, 0);
        }
        let mut sub = self.sub_parser(p + 3, e, Vars::new(), false);
        let code = match sub.parse_for_func() {
            Some(v) => v,
            None => {
                return None;
            },
        };
        if has_return_stmt(&code) {
            return None;
        }
        self.pos = e + 1;
        let name = String::from_str("main");
        proof {
            reveal_strlit("main");
        }
        assert(name@ =~= main_name());
        let args: Vec<Param> = Vec::new();
        assert(params_view(args@) =~= seq![]);
        Some(
            Stmt::Main(
                Func { args, code, name, ty: None, returnv: None, locals: sub.current_local },
            ),
        )
    }
}


impl Parser {
    /// A top-level statement, which must be a function definition.
    fn parse_statement(&mut self) -> (r: Option<Stmt>)
        requires
            old(self).pos < old(self).tokens.len(),
        ensures
            final(self).toks() == old(self).toks(),
            final(self).in_loop() == old(self).in_loop(),
            match tok_at(old(self).toks(), old(self).pos_of()) {
                Some(TokenView::Func) => match p_func(old(self).toks(), old(self).state()) {
                    Some((s, st2)) => r matches Some(x) && x@ == s && final(self).state() == st2,
                    None => r is None,
                },
                _ => r is None,
            },
    {
        match &self.tokens[self.pos] {
            Token::Func => self.try_parse_func(),
            _ => None,
        }
    }

    /// Function definitions up to the `EOF`.
    fn parse(&mut self) -> (r: Option<Vec<Stmt>>)
        ensures
            match p_program(old(self).toks(), old(self).state()) {
                Some(ss) => r matches Some(v) && stmts_view(v@) == ss,
                None => r is None,
            },
    {
        let ghost toks = self.toks();
        let ghost st0 = self.state();
        let mut statements: Vec<Stmt> = Vec::new();
        assert(stmts_view(statements@) + seq![] =~= seq![]);
        assert(p_program(toks, st0) == match p_program(toks, st0) {
            Some(ss) => Some(stmts_view(statements@) + ss),
            None => None,
        }) by {
            if let Some(ss) = p_program(toks, st0) {
                assert(stmts_view(statements@) + ss =~= ss);
            }
        }
        loop
            invariant
                toks == self.toks(),
                st0 == old(self).state(),
                toks == old(self).toks(),
                st0.pos <= self.pos_of(),
                self.pos_of() <= toks.len() || self.pos_of() == st0.pos,
                p_program(toks, st0) == match p_program(toks, self.state()) {
                    Some(ss) => Some(stmts_view(statements@) + ss),
                    None => None,
                },
            decreases toks.len() - self.pos_of(),
        {
            let p = self.pos;
            match self.at(p) {
                None => {
                    return None;
                },
                Some(Token::EOF) => {
                    assert(stmts_view(statements@) + seq![] =~= stmts_view(statements@));
                    return Some(statements);
                },
                Some(_) => {},
            }
            let ghost stp = self.state();
            let s = match self.parse_statement() {
                Some(s) => s,
                None => {
                    return None;
                },
            };
            proof {
                lemma_func_progress(toks, stp);
                lemma_stmts_view_push(statements@, s);
                if let Some(rest) = p_program(toks, self.state()) {
                    assert(stmts_view(statements@) + (seq![s@] + rest) =~= stmts_view(statements@).push(
                        s@,
                    ) + rest);
                }
            }
            statements.push(s);
        }
    }
}

impl Parser {
    /// The expression at the position, which must be one of type `tipe` (see
    /// [`Parser::try_check_expr`], which tells where it is not).
    pub fn check_expr(&mut self, tipe: Type) -> (r: Expr)
        requires
            p_expr(old(self).toks(), old(self).scope(), old(self).pos_of()) matches Some((e, _))
                && fits_type(old(self).scope(), tipe, e),
        ensures
            final(self).keeps_scope(old(self)),
            p_expr(old(self).toks(), old(self).scope(), old(self).pos_of()) matches Some((e, q)) && r@
                == e && final(self).pos_of() == q,
    {
        match self.try_check_expr(tipe) {
            Some(e) => e,
            None => Expr::Unset(None),
        }
    }

    /// The condition at the position: a comparison of two expressions, or a
    /// lone expression before `{`, `||` or `&&`; the tokens must spell one.
    pub fn parse_cond_atom(&mut self) -> (r: Condition)
        requires
            p_cond_atom(old(self).toks(), old(self).scope(), old(self).pos_of()) is Some,
        ensures
            final(self).keeps_scope(old(self)),
            p_cond_atom(old(self).toks(), old(self).scope(), old(self).pos_of()) matches Some((c, q))
                && r@ == c && final(self).pos_of() == q,
    {
        match self.try_parse_cond_atom() {
            Some(c) => c,
            None => Condition::OnlyOne(Box::new(Expr::Unset(None))),
        }
    }

    /// The call of `name` whose arguments start at the position; the
    /// function must be known and its arguments must fit its parameters.
    pub fn parse_call_for_expr(&mut self, name: String) -> (r: Funcall)
        requires
            p_call(old(self).toks(), old(self).scope(), name@, old(self).pos_of()) is Some,
        ensures
            final(self).keeps_scope(old(self)),
            p_call(old(self).toks(), old(self).scope(), name@, old(self).pos_of()) matches Some((c, q))
                && r@ == c && final(self).pos_of() == q,
    {
        match self.try_parse_call_for_expr(name) {
            Some(c) => c,
            None => Funcall { name: String::new(), args: Vec::new() },
        }
    }

    /// The statement that starts with the name `name` at the position: a
    /// call of a known function with fitting arguments, or an assignment.
    pub fn parse_call(&mut self, name: String) -> (r: Stmt)
        requires
            old(self).pos_of() < old(self).toks().len(),
            p_name_stmt(old(self).toks(), old(self).state(), name@) is Some,
        ensures
            final(self).toks() == old(self).toks(),
            final(self).in_loop() == old(self).in_loop(),
            p_name_stmt(old(self).toks(), old(self).state(), name@) matches Some((s, st2)) && r@ == s
                && final(self).state() == st2,
    {
        proof {
            self.lemma_len();
        }
        match self.try_parse_call(name) {
            Some(s) => s,
            None => Stmt::Break,
        }
    }

    /// The statement at the position, which the tokens must spell.
    pub fn parse_stmt_for_func(&mut self) -> (r: Stmt)
        requires
            p_stmt(old(self).toks(), old(self).in_loop(), old(self).state()) is Some,
        ensures
            final(self).toks() == old(self).toks(),
            final(self).in_loop() == old(self).in_loop(),
            p_stmt(old(self).toks(), old(self).in_loop(), old(self).state()) matches Some((s, st2))
                && r@ == s && final(self).state() == st2,
    {
        match self.try_parse_stmt_for_func() {
            Some(s) => s,
            None => Stmt::Break,
        }
    }

    /// `loop { .. }` at the position, which the tokens must spell.
    pub fn parse_loop(&mut self) -> (r: Stmt)
        requires
            old(self).pos_of() < old(self).toks().len(),
            p_loop(old(self).toks(), old(self).state()) is Some,
        ensures
            final(self).toks() == old(self).toks(),
            final(self).in_loop() == old(self).in_loop(),
            p_loop(old(self).toks(), old(self).state()) matches Some((s, st2)) && r@ == s
                && final(self).state() == st2,
    {
        proof {
            self.lemma_len();
        }
        match self.try_parse_loop() {
            Some(s) => s,
            None => Stmt::Break,
        }
    }

    /// The function definition at the position, which the tokens must spell;
    /// it becomes known to the statements after it.
    pub fn parse_func(&mut self) -> (r: Stmt)
        requires
            old(self).pos_of() < old(self).toks().len(),
            p_func(old(self).toks(), old(self).state()) is Some,
        ensures
            final(self).toks() == old(self).toks(),
            final(self).in_loop() == old(self).in_loop(),
            p_func(old(self).toks(), old(self).state()) matches Some((s, st2)) && r@ == s
                && final(self).state() == st2,
    {
        proof {
            self.lemma_len();
        }
        match self.try_parse_func() {
            Some(s) => s,
            None => Stmt::Break,
        }
    }

    /// The rest of `func main() { .. }` after the name, which the tokens must
    /// spell: no parameters and no `return` in its body.
    pub fn parse_main_func(&mut self) -> (r: Stmt)
        requires
            p_main(old(self).toks(), old(self).state()) is Some,
        ensures
            final(self).toks() == old(self).toks(),
            final(self).in_loop() == old(self).in_loop(),
            p_main(old(self).toks(), old(self).state()) matches Some((s, st2)) && r@ == s
                && final(self).state() == st2,
    {
        match self.try_parse_main_func() {
            Some(s) => s,
            None => Stmt::Break,
        }
    }
}

/// The functions every program may call: `print(string: str)` and
/// `str_cmp(string1: str, string2: str)`, which gives a `bool`.
fn builtin_funcs() -> (r: Vec<Sig>)
    ensures
        sigs_view(r@) == builtin_sigs(),
{
    proof {
        reveal_strlit("print");
        reveal_strlit("string");
        reveal_strlit("str_cmp");
        reveal_strlit("string1");
        reveal_strlit("string2");
    }
    let n_print = String::from_str("print");
    let n_string = String::from_str("string");
    let n_cmp = String::from_str("str_cmp");
    let n_string1 = String::from_str("string1");
    let n_string2 = String::from_str("string2");
    assert(n_print@ =~= seq!['p', 'r', 'i', 'n', 't']);
    assert(n_string@ =~= seq!['s', 't', 'r', 'i', 'n', 'g']);
    assert(n_cmp@ =~= seq!['s', 't', 'r', '_', 'c', 'm', 'p']);
    assert(n_string1@ =~= seq!['s', 't', 'r', 'i', 'n', 'g', '1']);
    assert(n_string2@ =~= seq!['s', 't', 'r', 'i', 'n', 'g', '2']);
    let mut print_args: Vec<Param> = Vec::new();
    print_args.push(Param { name: n_string, ty: Type::Str });
    let mut cmp_args: Vec<Param> = Vec::new();
    cmp_args.push(Param { name: n_string1, ty: Type::Str });
    cmp_args.push(Param { name: n_string2, ty: Type::Str });
    assert(params_view(print_args@) =~= builtin_sigs()[0].args);
    assert(params_view(cmp_args@) =~= builtin_sigs()[1].args);
    let mut funcs: Vec<Sig> = Vec::new();
    funcs.push(Sig { name: n_print, args: print_args, ty: None });
    funcs.push(Sig { name: n_cmp, args: cmp_args, ty: Some(FunType::Bool) });
    assert(sigs_view(funcs@) =~= builtin_sigs());
    funcs
}

/// The program that `code` spells: its tokens parsed as function definitions.
pub open spec fn front_end(code: Seq<char>) -> Option<Seq<StmtView>> {
    match lex(code) {
        Some(toks) => parse_tokens(toks),
        None => None,
    }
}

/// The function definitions of `code`; `None` exactly where [`front_end`] is
/// undefined, that is where the lexer or the parser cannot go on.
pub fn try_ready_code(code: &str) -> (r: Option<Vec<Stmt>>)
    ensures
        match front_end(code@) {
            Some(ss) => r matches Some(v) && stmts_view(v@) == ss,
            None => r is None,
        },
{
    let tokens = match try_tokenize(code) {
        Some(t) => t,
        None => {
            return None;
        },
    };
    let mut parser = Parser::new(tokens);
    parser.funcs = builtin_funcs();
    assert(parser.state() == crate::grammar::PState {
        pos: 0,
        locals: seq![],
        funcs: builtin_sigs(),
    });
    parser.parse()
}

/// The function definitions of `code`.
pub fn ready_code(code: &str) -> (r: Vec<Stmt>)
    requires
        front_end(code@) is Some,
    ensures
        stmts_view(r@) == front_end(code@)->0,
{
    match try_ready_code(code) {
        Some(v) => v,
        None => Vec::new(),
    }
}

} // verus!
