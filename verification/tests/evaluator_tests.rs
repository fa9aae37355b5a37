use rlox::ast::Expr;
use rlox::ast::Literal;
use rlox::ast::Stmt;
use rlox::environment::Environment;
use rlox::environment::Object;
use rlox::interpreter::Interpreter;
use rlox::lexer::lexer;
use rlox::lexer::Operator;
use rlox::number::Number;
use rlox::parser::Parser;

const FUEL: u64 = 1_000_000;

fn svec(xs: &[&str]) -> Vec<String> {
    xs.iter().map(|s| s.to_string()).collect()
}

fn run(source: &str) -> Vec<String> {
    let input: Vec<char> = source.chars().collect();
    let tokens = lexer(&input).unwrap();
    let mut p = Parser::new(tokens);
    let stmts = p.parse().unwrap();
    let mut i = Interpreter::new();
    i.interpret(&stmts, FUEL).unwrap();
    i.output
}

#[test]
fn interpreter_string() {
    let x = String::from("x");
    let y = String::from("y");
    let expr = Box::new(Expr::Binary {
        left: Box::new(Expr::L(Literal::Str(x))),
        operator: Operator::Plus,
        right: Box::new(Expr::L(Literal::Str(y))),
    });
    let mut i = Interpreter::new();
    i.interpret(&vec![Stmt::Expr(expr)], FUEL).unwrap();
    assert_eq!(i.output, Vec::<String>::new());
}

#[test]
fn interpreter_interpret_var_stmt() {
    let mut i = Interpreter::new();
    let name = String::from("z");
    let st = Stmt::Variable {
        name: name.clone(),
        initializer: Some(Box::new(Expr::L(Literal::Str("this is z".to_string())))),
    };
    i.interpret(&vec![st], FUEL).unwrap();
    let print = Stmt::Print(Box::from(Expr::Variable { name }));
    i.interpret(&vec![print], FUEL).unwrap();
    assert_eq!(i.output, svec(&["\"this is z\""]));
}

#[test]
fn interpreter_interpret_print_stmt() {
    let print = Stmt::Print(Box::new(Expr::Binary {
        left: Box::new(Expr::L(Literal::Str(String::from("x")))),
        operator: Operator::Plus,
        right: Box::new(Expr::L(Literal::Str(String::from("y")))),
    }));
    let mut i = Interpreter::new();
    i.interpret(&vec![print], FUEL).unwrap();
    assert_eq!(i.output, svec(&["\"xy\""]));
}

#[test]
fn interpreter_interpret_var() {
    let out = run("
            var a = \"global a\";
            print a;
        ");
    assert_eq!(out, svec(&["\"global a\""]));
}

#[test]
fn interpreter_interpret_blocks() {
    let out = run(
        r#"
            var a = "global a";
            {
              var a = "outer a";
              print a;
            }
            print a;
        "#,
    );
    assert_eq!(out, svec(&["\"outer a\"", "\"global a\""]));
}

#[test]
fn interpreter_interpret_if() {
    let out = run(
        r#"
            var a = 5;
            var b = 6;
            if (a < b) {
                print "hello";
            } else {
                print "world";
            }
        "#,
    );
    assert_eq!(out, svec(&["\"hello\""]));
}

#[test]
fn interpreter_interpret_comparison() {
    let out = run(
        r#"
            var a = 5;
            var b = 6;
            print a < b;
            print a > b;
            print a == b;
            print a != b;
            print a <= b;
            print a >= b;
        "#,
    );
    assert_eq!(out, svec(&["true", "false", "false", "true", "true", "false"]));
}

#[test]
fn interpreter_interpret_logical() {
    let out = run(
        r#"
            print true and false;
            print true or false;
        "#,
    );
    assert_eq!(out, svec(&["false", "true"]));
}

#[test]
fn interpreter_interpret_assign() {
    let out = run(
        r#"
            var a = 5;
            a = a + 1;
            print a;
        "#,
    );
    assert_eq!(out, svec(&["6"]));
}

#[test]
fn interpreter_interpret_while() {
    let out = run(
        r#"
            var a = 8;
            while (a < 10) {
                print a;
                a = a + 1;
            }
        "#,
    );
    assert_eq!(out, svec(&["8", "9"]));
}

#[test]
fn interpreter_intepret_for() {
    let out = run(
        r#"
            for (var i = 0; i < 3; i = i + 1) {
                print i;
            }
        "#,
    );
    assert_eq!(out, svec(&["0", "1", "2"]));
}

#[test]
fn mod_test() {
    let mut e = Environment::new();
    e.define(0, String::from("bob"), Object::L(Literal::Num(Number::new(1, 1))));
    println!("{:?}", e.get(0, &String::from("bob")));
    assert!(e.get(0, &String::from("bob")).is_some());
}

#[test]
fn mod_env() {
    let e = Environment::new();
    println!("{:?}", e);
    assert!(e.get(0, &String::from("missing")).is_none());
}
