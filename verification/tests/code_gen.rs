use compiler::ast::{
    BinaryOp, CompareOp, Condition, Expr, FunType, Func, Funcall, IfBlock, Param, Stmt, Type, Var,
    Vars, WhileBlock,
};
use compiler::code_gen::{Compiler, Instr, ValKind};
use compiler::parser::ready_code;
use std::collections::HashMap;

fn num(n: i64) -> Box<Expr> {
    Box::new(Expr::Num(n))
}

fn id(s: &str) -> Box<Expr> {
    Box::new(Expr::Id(s.to_string()))
}

fn bin(l: Box<Expr>, op: BinaryOp, r: Box<Expr>) -> Box<Expr> {
    Box::new(Expr::Binary(l, op, r))
}

fn no_vars() -> Vars {
    Vars { vars: vec![] }
}

fn var(tipe: Type, name: &str, value: Box<Expr>) -> Var {
    Var { tipe, value, name: name.to_string() }
}

fn main_fn(code: Vec<Stmt>) -> Stmt {
    Stmt::Main(Func {
        args: vec![],
        code,
        name: "main".to_string(),
        ty: None,
        returnv: None,
        locals: no_vars(),
    })
}

fn s(t: &str) -> String {
    t.to_string()
}

fn main_head() -> Vec<Instr> {
    vec![
        Instr::AddFunction { name: s("main"), params: vec![ValKind::Ptr], ret: None },
        Instr::AppendBlock { func: 0, name: s("start") },
        Instr::PositionAtEnd { block: 1 },
    ]
}

fn compile(stmts: Vec<Stmt>) -> Compiler {
    let mut c = Compiler::new("arm_module");
    assert!(c.parse_stmts(&stmts));
    c
}

/// The instructions that `i` uses.
fn operands(i: &Instr) -> Vec<usize> {
    match i {
        Instr::AppendBlock { func, .. } => vec![*func],
        Instr::PositionAtEnd { block } => vec![*block],
        Instr::Param { func, .. } => vec![*func],
        Instr::Store { slot, value } => vec![*slot, *value],
        Instr::Load { slot, .. } => vec![*slot],
        Instr::IntToFloat { value } => vec![*value],
        Instr::IntBinary { left, right, .. }
        | Instr::FloatBinary { left, right, .. }
        | Instr::IntCompare { left, right, .. }
        | Instr::And { left, right }
        | Instr::Or { left, right } => vec![*left, *right],
        Instr::Call { func, args, .. } => {
            let mut v = vec![*func];
            v.extend(args.iter().copied());
            v
        }
        Instr::Return(Some(v)) => vec![*v],
        Instr::Branch { target } => vec![*target],
        Instr::CondBranch { cond, then_block, else_block } => vec![*cond, *then_block, *else_block],
        _ => vec![],
    }
}

fn refers_only_backwards(code: &[Instr]) -> bool {
    code.iter().enumerate().all(|(k, i)| operands(i).iter().all(|o| *o < k))
}

#[test]
fn new_compiler_has_written_nothing() {
    let c = Compiler::new("arm_module");
    assert_eq!(c.module_name(), "arm_module");
    assert!(c.code().is_empty());
}

#[test]
fn declaring_a_runtime_function() {
    let mut c = Compiler::new("m");
    let f = c.add_function(s("print"), vec![ValKind::Ptr, ValKind::Ptr], None);
    assert_eq!(f, 0);
    assert_eq!(
        c.code(),
        &vec![Instr::AddFunction {
            name: s("print"),
            params: vec![ValKind::Ptr, ValKind::Ptr],
            ret: None
        }]
    );
}

#[test]
fn integer_declaration() {
    let c = compile(vec![main_fn(vec![Stmt::Int(var(
        Type::Int,
        "i",
        bin(num(1), BinaryOp::Add, num(2)),
    ))])]);
    let mut want = main_head();
    want.extend(vec![
        Instr::ConstInt(1),
        Instr::ConstInt(2),
        Instr::IntBinary { op: BinaryOp::Add, left: 3, right: 4 },
        Instr::Alloca { kind: ValKind::Int, name: s("i") },
        Instr::Store { slot: 6, value: 5 },
        Instr::Return(None),
    ]);
    assert_eq!(c.code(), &want);
}

#[test]
fn parsed_source_compiles_to_the_same_code() {
    let stmts = ready_code("func main() {\n int i = 1 + 2\n}\n");
    let mut c = Compiler::new("arm_module");
    assert!(c.parse_stmts(&stmts));
    let mut want = main_head();
    want.extend(vec![
        Instr::ConstInt(1),
        Instr::ConstInt(2),
        Instr::IntBinary { op: BinaryOp::Add, left: 3, right: 4 },
        Instr::Alloca { kind: ValKind::Int, name: s("i") },
        Instr::Store { slot: 6, value: 5 },
        Instr::Return(None),
    ]);
    assert_eq!(c.code(), &want);
}

#[test]
fn integers_mixed_with_doubles_are_converted() {
    let c = compile(vec![main_fn(vec![
        Stmt::Float(var(Type::Float, "f", bin(Box::new(Expr::Float(s("1.5"))), BinaryOp::Add, num(2)))),
        Stmt::Float(var(Type::Float, "g", bin(num(2), BinaryOp::Mul, Box::new(Expr::Float(s("0.5")))))),
    ])]);
    let mut want = main_head();
    want.extend(vec![
        Instr::ConstFloat(s("1.5")),
        Instr::ConstInt(2),
        Instr::IntToFloat { value: 4 },
        Instr::FloatBinary { op: BinaryOp::Add, left: 3, right: 5 },
        Instr::Alloca { kind: ValKind::Float, name: s("f") },
        Instr::Store { slot: 7, value: 6 },
        Instr::ConstInt(2),
        Instr::ConstFloat(s("0.5")),
        Instr::IntToFloat { value: 9 },
        Instr::FloatBinary { op: BinaryOp::Mul, left: 11, right: 10 },
        Instr::Alloca { kind: ValKind::Float, name: s("g") },
        Instr::Store { slot: 13, value: 12 },
        Instr::Return(None),
    ]);
    assert_eq!(c.code(), &want);
}

#[test]
fn assignment_loads_and_stores_the_variable() {
    let c = compile(vec![main_fn(vec![
        Stmt::Int(var(Type::Int, "i", num(4))),
        Stmt::Assign { name: s("i"), value: bin(id("i"), BinaryOp::Div, num(2)) },
    ])]);
    let mut want = main_head();
    want.extend(vec![
        Instr::ConstInt(4),
        Instr::Alloca { kind: ValKind::Int, name: s("i") },
        Instr::Store { slot: 4, value: 3 },
        Instr::Load { kind: ValKind::Int, slot: 4, name: s("i") },
        Instr::ConstInt(2),
        Instr::IntBinary { op: BinaryOp::Div, left: 6, right: 7 },
        Instr::Store { slot: 4, value: 8 },
        Instr::Return(None),
    ]);
    assert_eq!(c.code(), &want);
}

#[test]
fn assignment_to_an_unknown_name_writes_nothing() {
    let c = compile(vec![main_fn(vec![Stmt::Assign { name: s("y"), value: num(1) }])]);
    let mut want = main_head();
    want.push(Instr::Return(None));
    assert_eq!(c.code(), &want);
}

#[test]
fn string_variable_holds_a_pointer() {
    let c = compile(vec![main_fn(vec![Stmt::Str(var(
        Type::Str,
        "t",
        Box::new(Expr::Str(s("hey"))),
    ))])]);
    let mut want = main_head();
    want.extend(vec![
        Instr::GlobalString(s("hey")),
        Instr::Alloca { kind: ValKind::Ptr, name: s("t") },
        Instr::Store { slot: 4, value: 3 },
        Instr::Return(None),
    ]);
    assert_eq!(c.code(), &want);
}

#[test]
fn call_passes_the_runtime_first() {
    let mut c = Compiler::new("arm_module");
    c.add_function(s("print"), vec![ValKind::Ptr, ValKind::Ptr], None);
    let prog = vec![main_fn(vec![Stmt::Funcall(Funcall {
        name: s("print"),
        args: vec![Expr::Str(s("hi"))],
    })])];
    assert!(c.parse_stmts(&prog));
    let want = vec![
        Instr::AddFunction { name: s("print"), params: vec![ValKind::Ptr, ValKind::Ptr], ret: None },
        Instr::AddFunction { name: s("main"), params: vec![ValKind::Ptr], ret: None },
        Instr::AppendBlock { func: 1, name: s("start") },
        Instr::PositionAtEnd { block: 2 },
        Instr::Param { func: 1, index: 0, name: s("") },
        Instr::GlobalString(s("hi")),
        Instr::Call { func: 0, args: vec![4, 5], name: s("print") },
        Instr::Return(None),
    ];
    assert_eq!(c.code(), &want);
}

#[test]
fn function_with_parameters_and_a_call_of_it() {
    let add = Stmt::Func(Func {
        args: vec![Param { name: s("a"), ty: Type::Int }, Param { name: s("b"), ty: Type::Int }],
        code: vec![Stmt::ReturnStmt(bin(id("a"), BinaryOp::Add, id("b")))],
        name: s("add"),
        ty: Some(FunType::Int),
        returnv: Some(*bin(id("a"), BinaryOp::Add, id("b"))),
        locals: no_vars(),
    });
    let call = Expr::Func(Funcall { name: s("add"), args: vec![Expr::Num(1), Expr::Num(2)] });
    let c = compile(vec![add, main_fn(vec![Stmt::Int(var(Type::Int, "x", Box::new(call)))])]);
    let want = vec![
        Instr::AddFunction {
            name: s("add"),
            params: vec![ValKind::Ptr, ValKind::Int, ValKind::Int],
            ret: Some(ValKind::Int),
        },
        Instr::AppendBlock { func: 0, name: s("start") },
        Instr::PositionAtEnd { block: 1 },
        Instr::Param { func: 0, index: 1, name: s("a") },
        Instr::Alloca { kind: ValKind::Int, name: s("a") },
        Instr::Store { slot: 4, value: 3 },
        Instr::Param { func: 0, index: 2, name: s("b") },
        Instr::Alloca { kind: ValKind::Int, name: s("b") },
        Instr::Store { slot: 7, value: 6 },
        Instr::Load { kind: ValKind::Int, slot: 4, name: s("a") },
        Instr::Load { kind: ValKind::Int, slot: 7, name: s("b") },
        Instr::IntBinary { op: BinaryOp::Add, left: 9, right: 10 },
        Instr::Return(Some(11)),
        Instr::AddFunction { name: s("main"), params: vec![ValKind::Ptr], ret: None },
        Instr::AppendBlock { func: 13, name: s("start") },
        Instr::PositionAtEnd { block: 14 },
        Instr::Param { func: 13, index: 0, name: s("") },
        Instr::ConstInt(1),
        Instr::ConstInt(2),
        Instr::Call { func: 0, args: vec![16, 17, 18], name: s("add") },
        Instr::Alloca { kind: ValKind::Int, name: s("x") },
        Instr::Store { slot: 20, value: 19 },
        Instr::Return(None),
    ];
    assert_eq!(c.code(), &want);
}

fn loop_program() -> Vec<Stmt> {
    let if_break = Stmt::If(IfBlock {
        cond: Condition::Compare { left: id("i"), op: CompareOp::Equal, right: num(2) },
        code: vec![Stmt::Break],
        locals: no_vars(),
        elsepart: None,
    });
    let body = vec![
        if_break,
        Stmt::Assign { name: s("i"), value: bin(id("i"), BinaryOp::Add, num(1)) },
    ];
    vec![main_fn(vec![
        Stmt::Int(var(Type::Int, "i", num(0))),
        Stmt::While(WhileBlock {
            cond: Condition::Compare { left: id("i"), op: CompareOp::Less, right: num(3) },
            code: body,
            locals: no_vars(),
        }),
    ])]
}

#[test]
fn while_with_break() {
    let c = compile(loop_program());
    let mut want = main_head();
    want.extend(vec![
        Instr::ConstInt(0),
        Instr::Alloca { kind: ValKind::Int, name: s("i") },
        Instr::Store { slot: 4, value: 3 },
        Instr::AppendBlock { func: 0, name: s("while_cond") },
        Instr::AppendBlock { func: 0, name: s("while_body") },
        Instr::AppendBlock { func: 0, name: s("while_end") },
        Instr::Branch { target: 6 },
        Instr::PositionAtEnd { block: 6 },
        Instr::Load { kind: ValKind::Int, slot: 4, name: s("tmp") },
        Instr::ConstInt(3),
        Instr::IntCompare { op: CompareOp::Less, left: 11, right: 12 },
        Instr::CondBranch { cond: 13, then_block: 7, else_block: 8 },
        Instr::PositionAtEnd { block: 7 },
        Instr::AppendBlock { func: 0, name: s("if_then") },
        Instr::AppendBlock { func: 0, name: s("if_end") },
        Instr::Load { kind: ValKind::Int, slot: 4, name: s("tmp") },
        Instr::ConstInt(2),
        Instr::IntCompare { op: CompareOp::Equal, left: 18, right: 19 },
        Instr::CondBranch { cond: 20, then_block: 16, else_block: 17 },
        Instr::PositionAtEnd { block: 16 },
        Instr::Branch { target: 8 },
        Instr::PositionAtEnd { block: 17 },
        Instr::Load { kind: ValKind::Int, slot: 4, name: s("i") },
        Instr::ConstInt(1),
        Instr::IntBinary { op: BinaryOp::Add, left: 25, right: 26 },
        Instr::Store { slot: 4, value: 27 },
        Instr::Branch { target: 6 },
        Instr::PositionAtEnd { block: 8 },
        Instr::Return(None),
    ]);
    assert_eq!(c.code(), &want);
}

#[test]
fn if_else_compiles_both_branches() {
    let prog = vec![main_fn(vec![
        Stmt::Int(var(Type::Int, "i", num(1))),
        Stmt::If(IfBlock {
            cond: Condition::Compare { left: id("i"), op: CompareOp::Greater, right: num(0) },
            code: vec![Stmt::Assign { name: s("i"), value: num(5) }],
            locals: no_vars(),
            elsepart: Some(vec![Stmt::Assign { name: s("i"), value: num(6) }]),
        }),
    ])];
    let c = compile(prog);
    let mut want = main_head();
    want.extend(vec![
        Instr::ConstInt(1),
        Instr::Alloca { kind: ValKind::Int, name: s("i") },
        Instr::Store { slot: 4, value: 3 },
        Instr::AppendBlock { func: 0, name: s("if_then") },
        Instr::AppendBlock { func: 0, name: s("if_else") },
        Instr::AppendBlock { func: 0, name: s("end") },
        Instr::Load { kind: ValKind::Int, slot: 4, name: s("tmp") },
        Instr::ConstInt(0),
        Instr::IntCompare { op: CompareOp::Greater, left: 9, right: 10 },
        Instr::CondBranch { cond: 11, then_block: 6, else_block: 7 },
        Instr::PositionAtEnd { block: 6 },
        Instr::ConstInt(5),
        Instr::Store { slot: 4, value: 14 },
        Instr::Branch { target: 8 },
        Instr::PositionAtEnd { block: 7 },
        Instr::ConstInt(6),
        Instr::Store { slot: 4, value: 18 },
        Instr::Return(None),
    ]);
    assert_eq!(c.code(), &want);
}

#[test]
fn logical_conditions_combine_comparisons() {
    let cond = Condition::LogicalCompare {
        left: Box::new(Condition::Compare { left: num(1), op: CompareOp::Less, right: num(2) }),
        op: compiler::ast::LogicalOp::Or,
        right: Box::new(Condition::Compare { left: num(3), op: CompareOp::NotEqual, right: num(4) }),
    };
    let prog = vec![main_fn(vec![Stmt::While(WhileBlock { cond, code: vec![Stmt::Break], locals: no_vars() })])];
    let c = compile(prog);
    let code = c.code();
    assert_eq!(code[8], Instr::ConstInt(1));
    assert_eq!(code[10], Instr::IntCompare { op: CompareOp::Less, left: 8, right: 9 });
    assert_eq!(code[13], Instr::IntCompare { op: CompareOp::NotEqual, left: 11, right: 12 });
    assert_eq!(code[14], Instr::Or { left: 10, right: 13 });
    assert_eq!(code[15], Instr::CondBranch { cond: 14, then_block: 4, else_block: 5 });
}

#[test]
fn programs_the_generator_cannot_compile() {
    // `break` outside a loop
    let mut c = Compiler::new("m");
    assert!(!c.parse_stmts(&vec![main_fn(vec![Stmt::Break])]));
    // comparison of doubles
    let mut c = Compiler::new("m");
    let cond = Condition::Compare {
        left: Box::new(Expr::Float(s("423.3"))),
        op: CompareOp::Equal,
        right: Box::new(Expr::Float(s("23.4"))),
    };
    let prog = vec![main_fn(vec![Stmt::If(IfBlock { cond, code: vec![], locals: no_vars(), elsepart: None })])];
    assert!(!c.parse_stmts(&prog));
    // a function the module does not have
    let mut c = Compiler::new("m");
    let call = Stmt::Funcall(Funcall { name: s("print"), args: vec![Expr::Str(s("x"))] });
    assert!(!c.parse_stmts(&vec![main_fn(vec![call])]));
    // `continue` outside a loop
    let mut c = Compiler::new("m");
    assert!(!c.parse_stmts(&vec![main_fn(vec![Stmt::Continue])]));
    // a `char` variable: its value cannot be computed
    let mut c = Compiler::new("m");
    assert!(!c.parse_stmts(&vec![main_fn(vec![Stmt::Char(var(Type::Char, "c", Box::new(Expr::Char('x'))))])]));
    // a statement outside any function that needs one
    let mut c = Compiler::new("m");
    assert!(!c.parse_stmts(&vec![Stmt::Int(var(Type::Int, "i", num(1)))]));
    // a variable that was never declared
    let mut c = Compiler::new("m");
    assert!(!c.parse_stmts(&vec![main_fn(vec![Stmt::Int(var(Type::Int, "i", id("j")))])]));
    // a value-less call used as a value
    let mut c = Compiler::new("m");
    c.add_function(s("print"), vec![ValKind::Ptr, ValKind::Ptr], None);
    let call = Expr::Func(Funcall { name: s("print"), args: vec![Expr::Str(s("x"))] });
    assert!(!c.parse_stmts(&vec![main_fn(vec![Stmt::Int(var(Type::Int, "i", Box::new(call)))])]));
}

#[test]
fn every_instruction_refers_only_to_earlier_ones() {
    assert!(refers_only_backwards(compile(loop_program()).code()));
    let mut c = Compiler::new("m");
    c.add_function(s("print"), vec![ValKind::Ptr, ValKind::Ptr], None);
    let prog = vec![main_fn(vec![
        Stmt::Str(var(Type::Str, "t", Box::new(Expr::Str(s("a"))))),
        Stmt::Funcall(Funcall { name: s("print"), args: vec![Expr::Id(s("t"))] }),
    ])];
    assert!(c.parse_stmts(&prog));
    assert!(refers_only_backwards(c.code()));
}

#[test]
fn compiling_in_two_calls_is_compiling_once() {
    let f = |name: &str, n: i64| {
        Stmt::Func(Func {
            args: vec![],
            code: vec![Stmt::Int(var(Type::Int, "x", num(n)))],
            name: s(name),
            ty: None,
            returnv: None,
            locals: no_vars(),
        })
    };
    let mut once = Compiler::new("m");
    assert!(once.parse_stmts(&vec![f("a", 1), f("b", 2)]));
    let mut twice = Compiler::new("m");
    assert!(twice.parse_stmts(&vec![f("a", 1)]));
    assert!(twice.parse_stmts(&vec![f("b", 2)]));
    assert_eq!(once.code(), twice.code());
    assert_eq!(once.code().len(), 14);
    assert_eq!(once.code()[7], Instr::AddFunction { name: s("b"), params: vec![ValKind::Ptr], ret: None });
}

/// A value while running compiled code.
#[derive(Clone, Debug, PartialEq)]
enum Val {
    Int(i64),
    Float(f64),
    Text(String),
    Slot(usize),
    Flag(bool),
    Runtime,
}

/// Runs `main` of the compiled `code`, and gives what it printed.
fn run_main(code: &[Instr]) -> Vec<String> {
    let mut blocks: HashMap<usize, Vec<usize>> = HashMap::new();
    let mut current: Option<usize> = None;
    let mut main_id = None;
    for (k, i) in code.iter().enumerate() {
        match i {
            Instr::PositionAtEnd { block } => current = Some(*block),
            Instr::AddFunction { name, .. } if name == "main" => main_id = Some(k),
            Instr::AddFunction { .. }
            | Instr::AppendBlock { .. }
            | Instr::ConstInt(_)
            | Instr::ConstFloat(_)
            | Instr::GlobalString(_)
            | Instr::Param { .. } => {}
            _ => blocks.entry(current.unwrap()).or_default().push(k),
        }
    }
    let main_id = main_id.unwrap();
    let mut block = code
        .iter()
        .position(|i| matches!(i, Instr::AppendBlock { func, .. } if *func == main_id))
        .unwrap();
    let mut values: HashMap<usize, Val> = HashMap::new();
    let mut memory: HashMap<usize, Val> = HashMap::new();
    let mut out = Vec::new();
    let get = |values: &HashMap<usize, Val>, k: usize| -> Val {
        match &code[k] {
            Instr::ConstInt(n) => Val::Int(*n),
            Instr::ConstFloat(t) => Val::Float(t.parse().unwrap()),
            Instr::GlobalString(t) => Val::Text(t.clone()),
            Instr::Param { index: 0, .. } => Val::Runtime,
            _ => values[&k].clone(),
        }
    };
    for _step in 0..10_000 {
        let mut next = None;
        for &k in &blocks[&block] {
            let v = match &code[k] {
                Instr::Alloca { .. } => Val::Slot(k),
                Instr::Store { slot, value } => {
                    memory.insert(*slot, get(&values, *value));
                    continue;
                }
                Instr::Load { slot, .. } => memory[slot].clone(),
                Instr::IntBinary { op, left, right } => match (get(&values, *left), get(&values, *right)) {
                    (Val::Int(a), Val::Int(b)) => Val::Int(match op {
                        BinaryOp::Add => a.wrapping_add(b),
                        BinaryOp::Sub => a.wrapping_sub(b),
                        BinaryOp::Mul => a.wrapping_mul(b),
                        BinaryOp::Div => ((a as u64) / (b as u64)) as i64,
                    }),
                    other => panic!("{:?}", other),
                },
                Instr::IntCompare { op, left, right } => match (get(&values, *left), get(&values, *right)) {
                    (Val::Int(a), Val::Int(b)) => Val::Flag(match op {
                        CompareOp::Less => a < b,
                        CompareOp::Greater => a > b,
                        CompareOp::Equal => a == b,
                        CompareOp::NotEqual => a != b,
                    }),
                    other => panic!("{:?}", other),
                },
                Instr::Call { name, args, .. } if name == "print" => {
                    match get(&values, args[1]) {
                        Val::Text(t) => out.push(t),
                        other => panic!("{:?}", other),
                    }
                    continue;
                }
                Instr::Return(_) => return out,
                Instr::Branch { target } => {
                    next = Some(*target);
                    break;
                }
                Instr::CondBranch { cond, then_block, else_block } => {
                    next = Some(if get(&values, *cond) == Val::Flag(true) { *then_block } else { *else_block });
                    break;
                }
                other => panic!("not run here: {:?}", other),
            };
            values.insert(k, v);
        }
        block = next.expect("a block without a terminator");
    }
    panic!("the program does not stop")
}

const LOOP_PROGRAM: &str = r#"
func main() {
    int i = 0
    loop {
        i = i + 1
        if i == 3 { continue }
        if i == 7 { break }
        print("A")
    }
    print("END")
}
"#;

#[test]
fn loop_with_continue_and_break_runs_as_expected() {
    let stmts = ready_code(LOOP_PROGRAM);
    let mut c = Compiler::new("arm_module");
    c.add_function(s("print"), vec![ValKind::Ptr, ValKind::Ptr], None);
    assert!(c.parse_stmts(&stmts));
    assert!(refers_only_backwards(c.code()));
    let printed = run_main(c.code());
    assert_eq!(printed, vec!["A", "A", "A", "A", "A", "END"]);
}

#[test]
fn loop_blocks_and_jumps() {
    let prog = vec![main_fn(vec![Stmt::Loop(compiler::ast::Loop {
        locals: no_vars(),
        code: vec![Stmt::Continue],
    })])];
    let c = compile(prog);
    let mut want = main_head();
    want.extend(vec![
        Instr::AppendBlock { func: 0, name: s("loop") },
        Instr::AppendBlock { func: 0, name: s("loop_end") },
        Instr::Branch { target: 3 },
        Instr::PositionAtEnd { block: 3 },
        Instr::Branch { target: 3 },
        Instr::PositionAtEnd { block: 4 },
        Instr::Return(None),
    ]);
    assert_eq!(c.code(), &want);
}

#[test]
fn continue_in_while_jumps_to_the_test() {
    let prog = vec![main_fn(vec![Stmt::While(WhileBlock {
        cond: Condition::Compare { left: num(1), op: CompareOp::Less, right: num(2) },
        code: vec![Stmt::Continue],
        locals: no_vars(),
    })])];
    let c = compile(prog);
    let code = c.code();
    assert_eq!(code[12], Instr::PositionAtEnd { block: 4 });
    assert_eq!(code[13], Instr::Branch { target: 3 });
    assert_eq!(code[14], Instr::PositionAtEnd { block: 5 });
}

#[test]
fn values_and_comparisons_on_their_own() {
    let mut c = compile(vec![main_fn(vec![])]);
    assert_eq!(c.code().len(), 4);
    assert_eq!(c.get_value_of_expr(&Expr::Num(7)), (4, ValKind::Int));
    assert_eq!(c.get_value_of_expr(&Expr::Str(s("t"))), (5, ValKind::Ptr));
    let e = bin(num(1), BinaryOp::Sub, Box::new(Expr::Float(s("2.5"))));
    assert_eq!(c.binary(&e), (9, ValKind::Float));
    assert_eq!(c.code()[8], Instr::IntToFloat { value: 6 });
    assert_eq!(c.code()[9], Instr::FloatBinary { op: BinaryOp::Sub, left: 8, right: 7 });
    assert_eq!(c.compile_comp(&Expr::Num(1), CompareOp::Less, &Expr::Num(2)), 12);
    assert_eq!(c.code()[12], Instr::IntCompare { op: CompareOp::Less, left: 10, right: 11 });
}

#[test]
fn a_text_needs_the_builder_at_a_block() {
    let mut c = Compiler::new("m");
    assert!(!c.parse_stmts(&vec![Stmt::ReturnStmt(Box::new(Expr::Str(s("x"))))]));
    let mut c = Compiler::new("m");
    assert!(c.parse_stmts(&vec![Stmt::ReturnStmt(num(1))]));
    assert_eq!(c.code(), &vec![Instr::ConstInt(1)]);
}
