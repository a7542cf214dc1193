use compiler::ast::{
    BinaryOp, CompareOp, Condition, Expr, FunType, Func, Funcall, LogicalOp, Param, Stmt, Type,
    Var, Vars,
};
use compiler::parser::{ready_code, try_ready_code, Parser};
use compiler::token::tokenize;

fn num(n: i64) -> Box<Expr> {
    Box::new(Expr::Num(n))
}

fn id(s: &str) -> Box<Expr> {
    Box::new(Expr::Id(s.to_string()))
}

fn main_of(stmts: &[Stmt]) -> &Func {
    match stmts.last() {
        Some(Stmt::Main(f)) => f,
        other => panic!("expected main, got {:?}", other),
    }
}

#[test]
fn sample_program_parses() {
    let code = r#"
func main() {
    int i = 0
if 423.3 == 23.4{
print("dont work")
}else{
print("work")
}
if 32 == 32.00000000001{
print("dont work")
}else{
print("work")
}
    while i != 10 {
        i = i + 1

        if i == 2 {
            continue
        }


        if i == 4 {
            continue
        }

        print("ee")
    }
}
  "#;
    let stmts = ready_code(code);
    assert_eq!(stmts.len(), 1);
    let f = main_of(&stmts);
    assert_eq!(f.name, "main");
    assert_eq!(f.code.len(), 4);
    assert_eq!(
        f.code[0],
        Stmt::Int(Var { tipe: Type::Int, value: num(0), name: "i".to_string() })
    );
    match &f.code[1] {
        Stmt::If(b) => {
            assert_eq!(
                b.cond,
                Condition::Compare {
                    left: Box::new(Expr::Float("423.3".to_string())),
                    op: CompareOp::Equal,
                    right: Box::new(Expr::Float("23.4".to_string())),
                }
            );
            assert_eq!(
                b.code,
                vec![Stmt::Funcall(Funcall {
                    name: "print".to_string(),
                    args: vec![Expr::Str("dont work".to_string())],
                })]
            );
            assert_eq!(
                b.elsepart,
                Some(vec![Stmt::Funcall(Funcall {
                    name: "print".to_string(),
                    args: vec![Expr::Str("work".to_string())],
                })])
            );
        },
        other => panic!("expected if, got {:?}", other),
    }
    match &f.code[3] {
        Stmt::While(w) => {
            assert_eq!(
                w.cond,
                Condition::Compare { left: id("i"), op: CompareOp::NotEqual, right: num(10) }
            );
            assert_eq!(w.code.len(), 4);
            assert_eq!(
                w.code[0],
                Stmt::Assign {
                    name: "i".to_string(),
                    value: Box::new(Expr::Binary(id("i"), BinaryOp::Add, num(1))),
                }
            );
            match &w.code[1] {
                Stmt::If(b) => assert_eq!(b.code, vec![Stmt::Continue]),
                other => panic!("expected if, got {:?}", other),
            }
        },
        other => panic!("expected while, got {:?}", other),
    }
    assert_eq!(
        f.locals,
        Vars { vars: vec![Var { tipe: Type::Int, value: num(0), name: "i".to_string() }] }
    );
}

#[test]
fn loop_with_continue_and_break() {
    let code = r#"
func main() {
    int i = 0
    loop {
        i = i + 1
        if i == 3 { continue }
        if i == 7 { break }
        print("A")
    }
    print("END")
}
"#;
    let stmts = ready_code(code);
    let f = main_of(&stmts);
    assert_eq!(f.code.len(), 3);
    match &f.code[1] {
        Stmt::Loop(l) => {
            assert_eq!(l.code.len(), 4);
            match &l.code[2] {
                Stmt::If(b) => {
                    assert_eq!(
                        b.cond,
                        Condition::Compare { left: id("i"), op: CompareOp::Equal, right: num(7) }
                    );
                    assert_eq!(b.code, vec![Stmt::Break]);
                    assert_eq!(b.elsepart, None);
                },
                other => panic!("expected if, got {:?}", other),
            }
        },
        other => panic!("expected loop, got {:?}", other),
    }
}

#[test]
fn function_with_return_type() {
    let code = "func add(int a, int b) { return a + b * 2 } func main() { int x = add(1, 2) }";
    let stmts = ready_code(code);
    assert_eq!(stmts.len(), 2);
    match &stmts[0] {
        Stmt::Func(f) => {
            assert_eq!(f.name, "add");
            assert_eq!(
                f.args,
                vec![
                    Param { name: "a".to_string(), ty: Type::Int },
                    Param { name: "b".to_string(), ty: Type::Int },
                ]
            );
            assert_eq!(f.ty, Some(FunType::Int));
            assert_eq!(
                f.returnv,
                Some(Expr::Binary(
                    id("a"),
                    BinaryOp::Add,
                    Box::new(Expr::Binary(id("b"), BinaryOp::Mul, num(2))),
                ))
            );
            assert_eq!(f.locals.vars.len(), 2);
            assert_eq!(f.locals.vars[0].value, Box::new(Expr::Unset(None)));
        },
        other => panic!("expected func, got {:?}", other),
    }
    let m = main_of(&stmts);
    assert_eq!(
        m.code,
        vec![Stmt::Int(Var {
            tipe: Type::Int,
            value: Box::new(Expr::Func(Funcall {
                name: "add".to_string(),
                args: vec![Expr::Num(1), Expr::Num(2)],
            })),
            name: "x".to_string(),
        })]
    );
}

#[test]
fn subtraction_groups_to_the_left() {
    let stmts = ready_code("func main() { int x = 10 - 4 - 3 }");
    let m = main_of(&stmts);
    assert_eq!(
        m.code[0],
        Stmt::Int(Var {
            tipe: Type::Int,
            value: Box::new(Expr::Binary(
                Box::new(Expr::Binary(num(10), BinaryOp::Sub, num(4))),
                BinaryOp::Sub,
                num(3),
            )),
            name: "x".to_string(),
        })
    );
}

#[test]
fn parentheses_group() {
    let stmts = ready_code("func main() { int x = (1 + 2) * 3 }");
    let m = main_of(&stmts);
    assert_eq!(
        m.code[0],
        Stmt::Int(Var {
            tipe: Type::Int,
            value: Box::new(Expr::Binary(
                Box::new(Expr::Binary(num(1), BinaryOp::Add, num(2))),
                BinaryOp::Mul,
                num(3),
            )),
            name: "x".to_string(),
        })
    );
}

#[test]
fn logical_conditions_group_to_the_right() {
    let stmts = ready_code("func main() { int a = 1 if a == 1 || a < 2 && a > 0 { print(\"x\") } }");
    let m = main_of(&stmts);
    match &m.code[1] {
        Stmt::If(b) => assert_eq!(
            b.cond,
            Condition::LogicalCompare {
                left: Box::new(Condition::Compare {
                    left: id("a"),
                    op: CompareOp::Equal,
                    right: num(1),
                }),
                op: LogicalOp::Or,
                right: Box::new(Condition::LogicalCompare {
                    left: Box::new(Condition::Compare {
                        left: id("a"),
                        op: CompareOp::Less,
                        right: num(2),
                    }),
                    op: LogicalOp::And,
                    right: Box::new(Condition::Compare {
                        left: id("a"),
                        op: CompareOp::Greater,
                        right: num(0),
                    }),
                }),
            }
        ),
        other => panic!("expected if, got {:?}", other),
    }
}

#[test]
fn lone_expression_condition() {
    let stmts = ready_code("func main() { int a = 1 if a { print(\"x\") } }");
    let m = main_of(&stmts);
    match &m.code[1] {
        Stmt::If(b) => assert_eq!(b.cond, Condition::OnlyOne(id("a"))),
        other => panic!("expected if, got {:?}", other),
    }
}

#[test]
fn if_block_locals_include_outer_ones() {
    let stmts = ready_code("func main() { int a = 1 if a == 1 { int b = 2 } }");
    let m = main_of(&stmts);
    match &m.code[1] {
        Stmt::If(b) => {
            let names: Vec<&str> = b.locals.vars.iter().map(|v| v.name.as_str()).collect();
            assert_eq!(names, vec!["a", "b"]);
        },
        other => panic!("expected if, got {:?}", other),
    }
    let outer: Vec<&str> = m.locals.vars.iter().map(|v| v.name.as_str()).collect();
    assert_eq!(outer, vec!["a"]);
}

#[test]
fn declarations_of_every_type() {
    let stmts = ready_code("func main() { char c = 'z' str s = \"t\" float f = 1.5 float g = f }");
    let m = main_of(&stmts);
    assert_eq!(m.code.len(), 4);
    assert!(matches!(m.code[0], Stmt::Char(_)));
    assert!(matches!(m.code[1], Stmt::Str(_)));
    assert!(matches!(m.code[2], Stmt::Float(_)));
    assert!(matches!(m.code[3], Stmt::Float(_)));
}

#[test]
fn str_cmp_is_known_and_gives_bool() {
    // `bool` is no keyword, but a call of `str_cmp` may stand in a condition
    let stmts = ready_code("func main() { if str_cmp(\"a\", \"b\") { print(\"same\") } }");
    let m = main_of(&stmts);
    assert_eq!(m.code.len(), 1);
}

#[test]
fn rejected_programs() {
    // `main` may not return
    assert_eq!(try_ready_code("func main() { return 1 }"), None);
    // a name declared twice
    assert_eq!(try_ready_code("func main() { int a = 1 int a = 2 }"), None);
    // `break` and `continue` outside a loop
    assert_eq!(try_ready_code("func main() { break }"), None);
    assert_eq!(try_ready_code("func main() { continue }"), None);
    // an unknown function
    assert_eq!(try_ready_code("func main() { foo(1) }"), None);
    // a wrong argument type and a wrong number of arguments
    assert_eq!(try_ready_code("func main() { print(1) }"), None);
    assert_eq!(try_ready_code("func main() { print(\"a\", \"b\") }"), None);
    // a type error in a declaration
    assert_eq!(try_ready_code("func main() { int a = \"x\" }"), None);
    assert_eq!(try_ready_code("func main() { str s = 1 + 2 }"), None);
    // an assignment to an undeclared name
    assert_eq!(try_ready_code("func main() { a = 1 }"), None);
    // a statement outside a function
    assert_eq!(try_ready_code("int a = 1"), None);
    // a block that is never closed
    assert_eq!(try_ready_code("func main() { while 1 < 2 { print(\"x\") }"), None);
    // a function that returns a float literal
    assert_eq!(try_ready_code("func f() { return 1.5 }"), None);
    // the lexer stops
    assert_eq!(try_ready_code("func main() { int a = !1 }"), None);
}

#[test]
fn function_calls_itself_only_after_definition() {
    assert_eq!(try_ready_code("func f() { f() }"), None);
    assert!(try_ready_code("func f() { print(\"x\") } func main() { f() }").is_some());
}

#[test]
fn empty_program() {
    assert_eq!(ready_code(""), vec![]);
}

#[test]
fn scope_declares_and_finds_variables() {
    let mut vars = Vars::new();
    assert!(!vars.are_here(&"x".to_string()));
    vars.save(Var { tipe: Type::Int, value: num(1), name: "x".to_string() });
    vars.save(Var { tipe: Type::Str, value: Box::new(Expr::Str("s".to_string())), name: "y".to_string() });
    assert!(vars.are_here(&"x".to_string()));
    assert_eq!(
        vars.lookup_by_name(&"y".to_string()),
        Var { tipe: Type::Str, value: Box::new(Expr::Str("s".to_string())), name: "y".to_string() }
    );
    assert_eq!(vars.vars.len(), 2);
}

#[test]
fn parser_pieces_on_their_own() {
    let mut p = Parser::new(tokenize("5"));
    assert_eq!(p.check_expr(Type::Int), Expr::Num(5));
    let mut p = Parser::new(tokenize("5.0"));
    assert_eq!(p.check_expr(Type::Float), Expr::Float("5.0".to_string()));
    let mut p = Parser::new(tokenize("1 < 2 {"));
    assert_eq!(
        p.parse_cond_atom(),
        Condition::Compare { left: num(1), op: CompareOp::Less, right: num(2) }
    );
    let mut p = Parser::new(tokenize("3 {"));
    assert_eq!(p.parse_cond_atom(), Condition::OnlyOne(num(3)));
    let mut p = Parser::new(tokenize("loop { }"));
    match p.parse_loop() {
        Stmt::Loop(l) => assert!(l.code.is_empty()),
        other => panic!("{:?}", other),
    }
    let mut p = Parser::new(tokenize("func f(int a) { return a }"));
    match p.parse_func() {
        Stmt::Func(f) => {
            assert_eq!(f.name, "f");
            assert_eq!(f.ty, Some(FunType::Int));
        }
        other => panic!("{:?}", other),
    }
}
