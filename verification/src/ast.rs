use vstd::prelude::*;

verus! {

/// The type a function returns.
#[derive(Debug, Clone, Copy, PartialEq, Eq, Structural)]
pub enum FunType {
    Str,
    Int,
    Bool,
    Char,
    Float,
}

/// The type of a variable or parameter.
#[derive(Debug, Clone, Copy, PartialEq, Eq, Structural)]
pub enum Type {
    Int,
    Char,
    Bool,
    Float,
    Str,
}

#[derive(Debug, Clone, Copy, PartialEq, Eq, Structural)]
pub enum BinaryOp {
    Add,
    Sub,
    Mul,
    Div,
}

#[derive(Debug, Clone, Copy, PartialEq, Eq, Structural)]
pub enum CompareOp {
    Less,
    Greater,
    Equal,
    NotEqual,
}

#[derive(Debug, Clone, Copy, PartialEq, Eq, Structural)]
pub enum LogicalOp {
    And,
    Or,
}

/// A declared parameter of a function.
#[derive(Debug, PartialEq)]
pub struct Param {
    pub name: String,
    pub ty: Type,
}

/// A call of a function with its argument expressions.
#[derive(Debug, PartialEq)]
pub struct Funcall {
    pub name: String,
    pub args: Vec<Expr>,
}

/// An expression. A float literal keeps its source text.
#[derive(Debug, PartialEq)]
pub enum Expr {
    Num(i64),
    Float(String),
    Char(char),
    Id(String),
    Bool(bool),
    Str(String),
    Func(Funcall),
    Unset(Option<Box<Expr>>),
    Binary(Box<Expr>, BinaryOp, Box<Expr>),
}

/// The condition of an `if` or a `while`.
#[derive(Debug, PartialEq)]
pub enum Condition {
    Compare { left: Box<Expr>, op: CompareOp, right: Box<Expr> },
    LogicalCompare { left: Box<Condition>, op: LogicalOp, right: Box<Condition> },
    OnlyOne(Box<Expr>),
}

/// A declared variable with its type and initial value.
#[derive(Debug, PartialEq)]
pub struct Var {
    pub tipe: Type,
    pub value: Box<Expr>,
    pub name: String,
}

/// The variables in scope, in order of declaration.
#[derive(Debug, PartialEq)]
pub struct Vars {
    pub vars: Vec<Var>,
}

#[derive(Debug, PartialEq)]
pub struct IfBlock {
    pub cond: Condition,
    pub code: Vec<Stmt>,
    pub locals: Vars,
    pub elsepart: Option<Vec<Stmt>>,
}

#[derive(Debug, PartialEq)]
pub struct WhileBlock {
    pub cond: Condition,
    pub code: Vec<Stmt>,
    pub locals: Vars,
}

#[derive(Debug, PartialEq)]
pub struct Loop {
    pub locals: Vars,
    pub code: Vec<Stmt>,
}

/// A function definition. `ty` and `returnv` come from its first top-level
/// `return` statement.
#[derive(Debug, PartialEq)]
pub struct Func {
    pub args: Vec<Param>,
    pub code: Vec<Stmt>,
    pub name: String,
    pub ty: Option<FunType>,
    pub returnv: Option<Expr>,
    pub locals: Vars,
}

#[derive(Debug, PartialEq)]
pub enum Stmt {
    Assign { name: String, value: Box<Expr> },
    Int(Var),
    Char(Var),
    Loop(Loop),
    Float(Var),
    Str(Var),
    While(WhileBlock),
    Bool(Var),
    ReturnStmt(Box<Expr>),
    Func(Func),
    Funcall(Funcall),
    Main(Func),
    If(IfBlock),
    Continue,
    Break,
}

/// What the parser knows of a function: its name, parameters and return type.
#[derive(Debug, PartialEq)]
pub struct Sig {
    pub name: String,
    pub args: Vec<Param>,
    pub ty: Option<FunType>,
}

// ---------------------------------------------------------------------
// Mathematical values of the syntax tree
// ---------------------------------------------------------------------

pub struct ParamView {
    pub name: Seq<char>,
    pub ty: Type,
}

pub struct SigView {
    pub name: Seq<char>,
    pub args: Seq<ParamView>,
    pub ty: Option<FunType>,
}

pub struct CallView {
    pub name: Seq<char>,
    pub args: Seq<ExprView>,
}

pub enum ExprView {
    Num(i64),
    Float(Seq<char>),
    Char(char),
    Id(Seq<char>),
    Bool(bool),
    Str(Seq<char>),
    Func(CallView),
    Unset(Option<Box<ExprView>>),
    Binary(Box<ExprView>, BinaryOp, Box<ExprView>),
}

pub enum CondView {
    Compare { left: ExprView, op: CompareOp, right: ExprView },
    LogicalCompare { left: Box<CondView>, op: LogicalOp, right: Box<CondView> },
    OnlyOne(ExprView),
}

pub struct VarView {
    pub tipe: Type,
    pub value: ExprView,
    pub name: Seq<char>,
}

pub struct FuncView {
    pub args: Seq<ParamView>,
    pub code: Seq<StmtView>,
    pub name: Seq<char>,
    pub ty: Option<FunType>,
    pub returnv: Option<ExprView>,
    pub locals: Seq<VarView>,
}

pub enum StmtView {
    Assign { name: Seq<char>, value: ExprView },
    Int(VarView),
    Char(VarView),
    Loop { locals: Seq<VarView>, code: Seq<StmtView> },
    Float(VarView),
    Str(VarView),
    While { cond: CondView, code: Seq<StmtView>, locals: Seq<VarView> },
    Bool(VarView),
    ReturnStmt(ExprView),
    Func(FuncView),
    Funcall(CallView),
    Main(FuncView),
    If { cond: CondView, code: Seq<StmtView>, locals: Seq<VarView>, elsepart: Option<Seq<StmtView>> },
    Continue,
    Break,
}

pub open spec fn param_view(p: Param) -> ParamView {
    ParamView { name: p.name@, ty: p.ty }
}

pub open spec fn params_view(s: Seq<Param>) -> Seq<ParamView> {
    s.map_values(|p: Param| param_view(p))
}

pub open spec fn expr_view(e: Expr) -> ExprView
    decreases e,
{
    match e {
        Expr::Num(n) => ExprView::Num(n),
        Expr::Float(t) => ExprView::Float(t@),
        Expr::Char(c) => ExprView::Char(c),
        Expr::Id(n) => ExprView::Id(n@),
        Expr::Bool(b) => ExprView::Bool(b),
        Expr::Str(t) => ExprView::Str(t@),
        Expr::Func(f) => ExprView::Func(CallView { name: f.name@, args: exprs_view(f.args@) }),
        Expr::Unset(o) => ExprView::Unset(
            match o {
                Some(b) => Some(Box::new(expr_view(*b))),
                None => None,
            },
        ),
        Expr::Binary(l, op, r) => ExprView::Binary(
            Box::new(expr_view(*l)),
            op,
            Box::new(expr_view(*r)),
        ),
    }
}

pub open spec fn exprs_view(s: Seq<Expr>) -> Seq<ExprView>
    decreases s,
{
    if s.len() == 0 {
        seq![]
    } else {
        exprs_view(s.drop_last()).push(expr_view(s.last()))
    }
}


pub open spec fn cond_view(c: Condition) -> CondView
    decreases c,
{
    match c {
        Condition::Compare { left, op, right } => CondView::Compare {
            left: expr_view(*left),
            op,
            right: expr_view(*right),
        },
        Condition::LogicalCompare { left, op, right } => CondView::LogicalCompare {
            left: Box::new(cond_view(*left)),
            op,
            right: Box::new(cond_view(*right)),
        },
        Condition::OnlyOne(e) => CondView::OnlyOne(expr_view(*e)),
    }
}

pub open spec fn var_view(v: Var) -> VarView {
    VarView { tipe: v.tipe, value: expr_view(*v.value), name: v.name@ }
}

pub open spec fn vars_view(s: Seq<Var>) -> Seq<VarView> {
    s.map_values(|v: Var| var_view(v))
}

pub open spec fn call_view(f: Funcall) -> CallView {
    CallView { name: f.name@, args: exprs_view(f.args@) }
}

pub open spec fn func_view(f: Func) -> FuncView
    decreases f,
{
    FuncView {
        args: params_view(f.args@),
        code: stmts_view(f.code@),
        name: f.name@,
        ty: f.ty,
        returnv: match f.returnv {
            Some(e) => Some(expr_view(e)),
            None => None,
        },
        locals: vars_view(f.locals.vars@),
    }
}

pub open spec fn stmt_view(st: Stmt) -> StmtView
    decreases st,
{
    match st {
        Stmt::Assign { name, value } => StmtView::Assign { name: name@, value: expr_view(*value) },
        Stmt::Int(v) => StmtView::Int(var_view(v)),
        Stmt::Char(v) => StmtView::Char(var_view(v)),
        Stmt::Loop(l) => StmtView::Loop {
            locals: vars_view(l.locals.vars@),
            code: stmts_view(l.code@),
        },
        Stmt::Float(v) => StmtView::Float(var_view(v)),
        Stmt::Str(v) => StmtView::Str(var_view(v)),
        Stmt::While(w) => StmtView::While {
            cond: cond_view(w.cond),
            code: stmts_view(w.code@),
            locals: vars_view(w.locals.vars@),
        },
        Stmt::Bool(v) => StmtView::Bool(var_view(v)),
        Stmt::ReturnStmt(e) => StmtView::ReturnStmt(expr_view(*e)),
        Stmt::Func(f) => StmtView::Func(func_view(f)),
        Stmt::Funcall(c) => StmtView::Funcall(call_view(c)),
        Stmt::Main(f) => StmtView::Main(func_view(f)),
        Stmt::If(b) => StmtView::If {
            cond: cond_view(b.cond),
            code: stmts_view(b.code@),
            locals: vars_view(b.locals.vars@),
            elsepart: match b.elsepart {
                Some(e) => Some(stmts_view(e@)),
                None => None,
            },
        },
        Stmt::Continue => StmtView::Continue,
        Stmt::Break => StmtView::Break,
    }
}

pub open spec fn stmts_view(s: Seq<Stmt>) -> Seq<StmtView>
    decreases s,
{
    if s.len() == 0 {
        seq![]
    } else {
        stmts_view(s.drop_last()).push(stmt_view(s.last()))
    }
}

pub open spec fn sig_view(g: Sig) -> SigView {
    SigView { name: g.name@, args: params_view(g.args@), ty: g.ty }
}

pub open spec fn sigs_view(s: Seq<Sig>) -> Seq<SigView> {
    s.map_values(|g: Sig| sig_view(g))
}

impl View for Sig {
    type V = SigView;

    open spec fn view(&self) -> SigView {
        sig_view(*self)
    }
}

impl View for Param {
    type V = ParamView;

    open spec fn view(&self) -> ParamView {
        param_view(*self)
    }
}

impl View for Expr {
    type V = ExprView;

    open spec fn view(&self) -> ExprView {
        expr_view(*self)
    }
}

impl View for Funcall {
    type V = CallView;

    open spec fn view(&self) -> CallView {
        call_view(*self)
    }
}

impl View for Condition {
    type V = CondView;

    open spec fn view(&self) -> CondView {
        cond_view(*self)
    }
}

impl View for Var {
    type V = VarView;

    open spec fn view(&self) -> VarView {
        var_view(*self)
    }
}

impl View for Vars {
    type V = Seq<VarView>;

    open spec fn view(&self) -> Seq<VarView> {
        vars_view(self.vars@)
    }
}

impl View for Func {
    type V = FuncView;

    open spec fn view(&self) -> FuncView {
        func_view(*self)
    }
}

impl View for Stmt {
    type V = StmtView;

    open spec fn view(&self) -> StmtView {
        stmt_view(*self)
    }
}

/// Lemma: the view of a sequence of expressions is taken element by element.
pub proof fn lemma_exprs_view(s: Seq<Expr>)
    ensures
        exprs_view(s).len() == s.len(),
        forall|i: int| 0 <= i < s.len() ==> #[trigger] exprs_view(s)[i] == expr_view(s[i]),
    decreases s.len(),
{
    if s.len() > 0 {
        lemma_exprs_view(s.drop_last());
    }
}

/// Lemma: the view of a sequence of statements is taken element by element.
pub proof fn lemma_stmts_view(s: Seq<Stmt>)
    ensures
        stmts_view(s).len() == s.len(),
        forall|i: int| 0 <= i < s.len() ==> #[trigger] stmts_view(s)[i] == stmt_view(s[i]),
    decreases s.len(),
{
    if s.len() > 0 {
        lemma_stmts_view(s.drop_last());
    }
}

/// Lemma: appending an expression appends its view.
pub proof fn lemma_exprs_view_push(s: Seq<Expr>, e: Expr)
    ensures
        exprs_view(s.push(e)) == exprs_view(s).push(expr_view(e)),
{
    assert(s.push(e).drop_last() =~= s);
}

/// Lemma: appending a statement appends its view.
pub proof fn lemma_stmts_view_push(s: Seq<Stmt>, e: Stmt)
    ensures
        stmts_view(s.push(e)) == stmts_view(s).push(stmt_view(e)),
{
    assert(s.push(e).drop_last() =~= s);
}

/// Number of nodes of an expression tree.
pub open spec fn expr_size(e: Expr) -> nat
    decreases e,
{
    match e {
        Expr::Func(f) => 1 + exprs_size(f.args@),
        Expr::Unset(Some(b)) => 1 + expr_size(*b),
        Expr::Binary(l, _, r) => 1 + expr_size(*l) + expr_size(*r),
        _ => 1,
    }
}

pub open spec fn exprs_size(s: Seq<Expr>) -> nat
    decreases s,
{
    if s.len() == 0 {
        0
    } else {
        exprs_size(s.drop_last()) + expr_size(s.last())
    }
}

pub proof fn lemma_exprs_size(s: Seq<Expr>, i: int)
    requires
        0 <= i < s.len(),
    ensures
        expr_size(s[i]) <= exprs_size(s),
    decreases s.len(),
{
    if i < s.len() - 1 {
        lemma_exprs_size(s.drop_last(), i);
    }
}

/// Number of statements in a statement tree.
pub open spec fn stmt_size(s: Stmt) -> nat
    decreases s,
{
    match s {
        Stmt::Loop(l) => 1 + stmts_size(l.code@),
        Stmt::While(w) => 1 + stmts_size(w.code@),
        Stmt::Func(f) => 1 + stmts_size(f.code@),
        Stmt::Main(f) => 1 + stmts_size(f.code@),
        Stmt::If(b) => 1 + stmts_size(b.code@) + match b.elsepart {
            Some(e) => stmts_size(e@),
            None => 0,
        },
        _ => 1,
    }
}

pub open spec fn stmts_size(s: Seq<Stmt>) -> nat
    decreases s,
{
    if s.len() == 0 {
        0
    } else {
        stmts_size(s.drop_last()) + stmt_size(s.last())
    }
}

pub proof fn lemma_stmts_size(s: Seq<Stmt>, i: int)
    requires
        0 <= i < s.len(),
    ensures
        stmt_size(s[i]) <= stmts_size(s),
    decreases s.len(),
{
    if i < s.len() - 1 {
        lemma_stmts_size(s.drop_last(), i);
    }
}

// ---------------------------------------------------------------------
// Copies
// ---------------------------------------------------------------------

impl Expr {
    /// A copy of the whole expression tree.
    pub fn deep_copy(&self) -> (r: Expr)
        ensures
            r@ == self@,
        decreases expr_size(*self),
    {
        match self {
            Expr::Num(n) => Expr::Num(*n),
            Expr::Float(t) => Expr::Float(t.clone()),
            Expr::Char(c) => Expr::Char(*c),
            Expr::Id(n) => Expr::Id(n.clone()),
            Expr::Bool(b) => Expr::Bool(*b),
            Expr::Str(t) => Expr::Str(t.clone()),
            Expr::Func(f) => {
                assert(expr_size(*self) == 1 + exprs_size(f.args@));
                let mut args: Vec<Expr> = Vec::new();
                let mut i: usize = 0;
                while i < f.args.len()
                    invariant
                        0 <= i <= f.args@.len(),
                        expr_size(*self) == 1 + exprs_size(f.args@),
                        exprs_view(args@) == exprs_view(f.args@.take(i as int)),
                    decreases f.args@.len() - i,
                {
                    proof {
                        lemma_exprs_size(f.args@, i as int);
                        assert(expr_size(*self) == 1 + exprs_size(f.args@));
                        assert(expr_size(f.args@[i as int]) < expr_size(*self));
                    }
                    let a = f.args[i].deep_copy();
                    proof {
                        lemma_exprs_view_push(args@, a);
                        lemma_exprs_view_push(f.args@.take(i as int), f.args@[i as int]);
                        assert(f.args@.take(i as int).push(f.args@[i as int]) =~= f.args@.take(
                            i + 1,
                        ));
                    }
                    args.push(a);
                    i = i + 1;
                }
                assert(f.args@.take(i as int) =~= f.args@);
                Expr::Func(Funcall { name: f.name.clone(), args })
            },
            Expr::Unset(o) => match o {
                Some(b) => Expr::Unset(Some(Box::new((**b).deep_copy()))),
                None => Expr::Unset(None),
            },
            Expr::Binary(l, op, r) => Expr::Binary(
                Box::new((**l).deep_copy()),
                *op,
                Box::new((**r).deep_copy()),
            ),
        }
    }
}

impl Var {
    /// A copy of the variable and its value.
    pub fn deep_copy(&self) -> (r: Var)
        ensures
            r@ == self@,
    {
        Var { tipe: self.tipe, value: Box::new((*self.value).deep_copy()), name: self.name.clone() }
    }
}

impl Vars {
    /// A copy of all the variables.
    pub fn deep_copy(&self) -> (r: Vars)
        ensures
            r@ == self@,
    {
        let mut out: Vec<Var> = Vec::new();
        let mut i: usize = 0;
        while i < self.vars.len()
            invariant
                0 <= i <= self.vars@.len(),
                vars_view(out@) == vars_view(self.vars@.take(i as int)),
            decreases self.vars@.len() - i,
        {
            let v = self.vars[i].deep_copy();
            let ghost before = out@;
            out.push(v);
            assert(out@ =~= before.push(v));
            assert(self.vars@.take(i + 1) =~= self.vars@.take(i as int).push(self.vars@[i as int]));
            assert(vars_view(out@) =~= vars_view(before).push(var_view(v)));
            assert(vars_view(self.vars@.take(i + 1)) =~= vars_view(self.vars@.take(i as int)).push(
                var_view(self.vars@[i as int]),
            ));
            i = i + 1;
        }
        assert(self.vars@.take(i as int) =~= self.vars@);
        Vars { vars: out }
    }
}

impl Sig {
    pub fn deep_copy(&self) -> (r: Sig)
        ensures
            r@ == self@,
    {
        let mut args: Vec<Param> = Vec::new();
        let mut i: usize = 0;
        while i < self.args.len()
            invariant
                0 <= i <= self.args@.len(),
                params_view(args@) == params_view(self.args@.take(i as int)),
            decreases self.args@.len() - i,
        {
            let a = self.args[i].deep_copy();
            let ghost before = args@;
            args.push(a);
            assert(args@ =~= before.push(a));
            assert(self.args@.take(i + 1) =~= self.args@.take(i as int).push(self.args@[i as int]));
            assert(params_view(args@) =~= params_view(before).push(param_view(a)));
            assert(params_view(self.args@.take(i + 1)) =~= params_view(self.args@.take(i as int)).push(
                param_view(self.args@[i as int]),
            ));
            i = i + 1;
        }
        assert(self.args@.take(i as int) =~= self.args@);
        Sig { name: self.name.clone(), args, ty: self.ty }
    }
}

/// A copy of every parameter.
pub fn copy_params(v: &Vec<Param>) -> (r: Vec<Param>)
    ensures
        params_view(r@) == params_view(v@),
{
    let mut out: Vec<Param> = Vec::new();
    let mut i: usize = 0;
    while i < v.len()
        invariant
            0 <= i <= v@.len(),
            params_view(out@) == params_view(v@.take(i as int)),
        decreases v@.len() - i,
    {
        let a = v[i].deep_copy();
        let ghost before = out@;
        out.push(a);
        assert(out@ =~= before.push(a));
        assert(v@.take(i + 1) =~= v@.take(i as int).push(v@[i as int]));
        assert(params_view(out@) =~= params_view(before).push(param_view(a)));
        assert(params_view(v@.take(i + 1)) =~= params_view(v@.take(i as int)).push(
            param_view(v@[i as int]),
        ));
        i = i + 1;
    }
    assert(v@.take(i as int) =~= v@);
    out
}

/// A copy of every signature.
pub fn copy_sigs(v: &Vec<Sig>) -> (r: Vec<Sig>)
    ensures
        sigs_view(r@) == sigs_view(v@),
{
    let mut out: Vec<Sig> = Vec::new();
    let mut i: usize = 0;
    while i < v.len()
        invariant
            0 <= i <= v@.len(),
            sigs_view(out@) == sigs_view(v@.take(i as int)),
        decreases v@.len() - i,
    {
        let g = v[i].deep_copy();
        let ghost before = out@;
        out.push(g);
        assert(out@ =~= before.push(g));
        assert(v@.take(i + 1) =~= v@.take(i as int).push(v@[i as int]));
        assert(sigs_view(out@) =~= sigs_view(before).push(sig_view(g)));
        assert(sigs_view(v@.take(i + 1)) =~= sigs_view(v@.take(i as int)).push(sig_view(v@[i as int])));
        i = i + 1;
    }
    assert(v@.take(i as int) =~= v@);
    out
}

impl Param {
    pub fn deep_copy(&self) -> (r: Param)
        ensures
            r@ == self@,
    {
        Param { name: self.name.clone(), ty: self.ty }
    }
}

} // verus!
