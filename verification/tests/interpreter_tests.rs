use rlox::ast::Expr;
use rlox::ast::Literal;
use rlox::ast::Stmt;
use rlox::interpreter::Interpreter;
use rlox::lexer::lexer;
use rlox::lexer::Operator;
use rlox::number::Number;
use rlox::parser::Parser;

const FUEL: u64 = 1_000_000;

fn svec(xs: &[&str]) -> Vec<String> {
    xs.iter().map(|s| s.to_string()).collect()
}


fn run(source: &str) -> Vec<String> {
    let input: Vec<char> = source.chars().collect();
    let tokens = lexer(&input).unwrap();
    let mut p = Parser::new(tokens);
    let stmts = p.parse().unwrap();
    let mut i = Interpreter::new();
    i.interpret(&stmts, FUEL).unwrap();
    i.output
}

#[test]
fn mod_string() {
    let x = String::from("x");
    let y = String::from("y");
    let expr = Box::new(Expr::Binary {
        left: Box::new(Expr::L(Literal::Str(x))),
        operator: Operator::Plus,
        right: Box::new(Expr::L(Literal::Str(y))),
    });
    let mut i = Interpreter::new();
    i.interpret(&vec![Stmt::Expr(expr)], FUEL).unwrap();

    let x = Number::new(1, 1);
    let y = Number::new(2, 1);
    let expr = Box::new(Expr::Binary {
        left: Box::new(Expr::L(Literal::Num(x))),
        operator: Operator::And,
        right: Box::new(Expr::L(Literal::Num(y))),
    });
    let mut i = Interpreter::new();
    let r = i.interpret(&vec![Stmt::Expr(expr)], FUEL);
    println!("{:?}", r);
}

#[test]
fn mod_interpret_var_stmt() {
    let mut i = Interpreter::new();
    let name = String::from("z");
    let st = Stmt::Variable {
        name: name.clone(),
        initializer: Some(Box::new(Expr::L(Literal::Str("this is z".to_string())))),
    };
    i.interpret(&vec![st], FUEL).unwrap();

    let print = Stmt::Print(Box::from(Expr::Variable { name: name.clone() }));
    i.interpret(&vec![print], FUEL).unwrap();

    let st = Stmt::Variable {
        name: name.clone(),
        initializer: Some(Box::new(Expr::L(Literal::Num(Number::new(1, 1))))),
    };
    i.interpret(&vec![st], FUEL).unwrap();
    let print = Stmt::Print(Box::from(Expr::Variable { name: name.clone() }));
    i.interpret(&vec![print], FUEL).unwrap();
    assert_eq!(i.output, svec(&["\"this is z\"", "1"]));
}

#[test]
fn mod_interpret_print_stmt() {
    let x = String::from("x");
    let y = String::from("y");
    let print = Stmt::Print(Box::new(Expr::Binary {
        left: Box::new(Expr::L(Literal::Str(x))),
        operator: Operator::Plus,
        right: Box::new(Expr::L(Literal::Str(y))),
    }));
    let mut i = Interpreter::new();
    i.interpret(&vec![print], FUEL).unwrap();
    assert_eq!(i.output, svec(&["\"xy\""]));
}

#[test]
fn mod_interpret_var() {
    let out = run("
            var a = \"global a\";
            print a;
        ");
    assert_eq!(out, svec(&["\"global a\""]));
}

#[test]
fn mod_interpret_blocks() {
    let out = run(
        r#"
            var a = "global a";
            var b = "global b";
            var c = "global c";
            {
              var a = "outer a";
              var b = "outer b";
              {
                var a = "inner a";
                print a;
                print b;
                print c;
              }
              print a;
              print b;
              print c;
            }
            print a;
            print b;
            print c;
        "#,
    );
    assert_eq!(out, svec(&[
            "\"inner a\"",
            "\"outer b\"",
            "\"global c\"",
            "\"outer a\"",
            "\"outer b\"",
            "\"global c\"",
            "\"global a\"",
            "\"global b\"",
            "\"global c\"",
        ]));
}

#[test]
fn mod_interpret_if() {
    let out = run(
        r#"
            var a = 5;
            var b = 6;
            if (a < b) {
                print "hello";
            } else {
                print "world";
            }

            if (a <= b) {
                print "second";
            }

            print a;
            if (a < 10) {
                print a;
                a = 11;
            }
            print a;
        "#,
    );
    assert_eq!(out, svec(&["\"hello\"", "\"second\"", "5", "5", "11"]));
}

#[test]
fn mod_interpret_comparison() {
    let out = run(
        r#"
            var a = 5;
            var b = 6;
            print a;
            print b;
            print a < b;
        "#,
    );
    assert_eq!(out, svec(&["5", "6", "true"]));
}

#[test]
fn mod_interpret_logical() {
    let out = run(
        r#"
            var a = 5;
            var b = 6;
            print a;
            print b;
            print a < b or false;
            print a < b and false;
        "#,
    );
    assert_eq!(out, svec(&["5", "6", "true", "false"]));
}

#[test]
fn mod_interpret_assign() {
    let out = run(
        r#"
            var a = 5;
            print a;
            a = a + 1;
            print a;
        "#,
    );
    assert_eq!(out, svec(&["5", "6"]));
}

#[test]
fn mod_interpret_while() {
    let out = run(
        r#"
            var a = 5;
            print a;
            while (a < 10) {
                print a;
                a = a + 1;
            }
            print a;
        "#,
    );
    assert_eq!(out, svec(&["5", "5", "6", "7", "8", "9", "10"]));
}

#[test]
fn mod_intepret_for() {
    let out = run(
        r#"
            for (var i = 0; i < 10; i = i + 1) {
                var j = 2;
                print j*i;
            }
        "#,
    );
    assert_eq!(out, svec(&["0", "2", "4", "6", "8", "10", "12", "14", "16", "18"]));
}

#[test]
fn mod_function() {
    let out = run(
        r#"
            fun bob(a, b, c) {
                var d = 1;
                print a + b + c + d;
            }
        "#,
    );
    assert_eq!(out, Vec::<String>::new());
}

#[test]
fn function_return() {
    let out = run(
        r#"
            fun bob(a, b, c) {
                var d = 1;
                return d;
            }

            print bob(1,2,3);
        "#,
    );
    assert_eq!(out, svec(&["1"]));
}

#[test]
fn function_early_return() {
    let out = run(
        r#"
            fun bob(a, b, c) {
                print 5;
                return 10;
                print "can't reach";
            }

            print bob(1,2,3);
        "#,
    );
    assert_eq!(out, svec(&["5", "10"]));
}

#[test]
fn fibonacci() {
    let out = run(
        r#"
            fun fibonacci(n) {
              if (n <= 1) return n;
              var f1 = fibonacci(n - 1);
              var f2 = fibonacci(n - 2);
              return f1 + f2;
            }

            print fibonacci(10);
        "#,
    );
    assert_eq!(out, svec(&["55"]));
}

#[test]
fn callable_clock() {
    let out = run(
        r#"
            print clock();
        "#,
    );
    assert_eq!(out.len(), 1);
}

#[test]
fn count() {
    let input: Vec<char> = r#"
            fun count(n) {
              if (n > 1) count(n - 1);
              print n;
            }

            count(3);
            print count;
            print clock;
        "#
    .chars()
    .collect();
    let tokens = lexer(&input).unwrap();
    let mut p = Parser::new(tokens);
    let stmts = p.parse().unwrap();
    let mut i = Interpreter::new();
    i.interpret(&stmts, FUEL).unwrap();
    println!("{:#?}", i.env);
    assert_eq!(i.output, svec(&["1", "2", "3", "<fn count>", "<native fn clock>"]));
}
