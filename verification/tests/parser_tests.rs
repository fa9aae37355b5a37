use rlox::lexer::lexer;
use rlox::parser::ParseError;
use rlox::parser::Parser;

fn tokens_of(source: &str) -> Vec<rlox::lexer::Token> {
    let input: Vec<char> = source.chars().collect();
    lexer(&input).unwrap()
}

#[test]
fn parse_test() {
    let tokens = tokens_of("nil;");
    let mut p = Parser::new(tokens);
    let e = p.expression();
    println!("{:#?}", e);
    assert!(e.is_ok());
}

#[test]
fn parse_print() {
    let tokens = tokens_of("print 5;");
    let mut p = Parser::new(tokens);
    let e = p.parse();
    println!("{:#?}", e);
    assert!(e.is_ok());
}

#[test]
fn parse_var() {
    let tokens = tokens_of("var x = 5;");
    let mut p = Parser::new(tokens);
    let e = p.parse();
    println!("{:#?}", e);
    assert!(e.is_ok());
}

#[test]
fn parse_block() {
    let tokens = tokens_of("{var x = 5;} {var y = 10;} {print y;}");
    let mut p = Parser::new(tokens);
    let e = p.parse();
    println!("{:#?}", e);
    assert!(e.is_ok());
}

#[test]
fn parse_if() {
    let tokens = tokens_of("if (x < 5) { print x; } else { print 5; }");
    let mut p = Parser::new(tokens);
    let e = p.parse();
    println!("{:#?}", e);
    assert!(e.is_ok());
}

#[test]
fn parse_logical() {
    let tokens = tokens_of("a and b or c;");
    let mut p = Parser::new(tokens);
    let e = p.parse();
    println!("{:#?}", e);
    assert!(e.is_ok());
}

#[test]
fn parse_assign() {
    let tokens = tokens_of(
        r#"
            var a = 5;
            print a;
            a = a + 1;
            print a + a;
        "#,
    );
    let mut p = Parser::new(tokens);
    let e = p.parse();
    println!("{:#?}", e);
    assert!(e.is_ok());
}

#[test]
fn parse_for() {
    let tokens = tokens_of(
        r#"
            for (var i = 0; i < 10; i = i + 1) {
                var j = 2;
                print i;
                print j*i;
            }
        "#,
    );
    let mut p = Parser::new(tokens);
    let e = p.parse();
    println!("{:#?}", e);
    assert!(e.is_ok());
}

#[test]
fn parser_clock() {
    let tokens = tokens_of(
        r#"
            clock();
        "#,
    );
    let mut p = Parser::new(tokens);
    let e = p.parse();
    println!("{:#?}", e);
    assert!(e.is_ok());
}

#[test]
fn parser_function() {
    let tokens = tokens_of(
        r#"
            fun bob(a, b, c) {
                var d = 1;
                print a + b + c + d;
            }
        "#,
    );
    let mut p = Parser::new(tokens);
    let e = p.parse();
    println!("{:#?}", e);
    assert!(e.is_ok());
}

#[test]
fn test_stmts() {
    let tokens = tokens_of("print \"one\"; print true; print 2 + 1;");
    let mut p = Parser::new(tokens);
    let stmts = p.parse().unwrap();
    let mut i = rlox::interpreter::Interpreter::new();
    i.interpret(&stmts, 1_000_000).unwrap();
    let expected: Vec<String> = ["\"one\"", "true", "3"].iter().map(|s| s.to_string()).collect();
    assert_eq!(i.output, expected);
}

#[test]
fn parse_same_source_twice_is_equal() {
    let source = r#"
        fun add(a, b) { return a + b; }
        for (var i = 0; i < 3; i = i + 1) { print add(i, 2.5); }
    "#;
    let mut p1 = Parser::new(tokens_of(source));
    let mut p2 = Parser::new(tokens_of(source));
    let t1 = p1.parse().unwrap();
    let t2 = p2.parse().unwrap();
    assert_eq!(t1, t2);
}

#[test]
fn parse_assignment_target_must_be_variable() {
    let mut p = Parser::new(tokens_of("1 = 2;"));
    assert_eq!(p.parse(), Err(ParseError::InvalidAssignmentTarget));
}

#[test]
fn parse_unexpected_token() {
    let mut p = Parser::new(tokens_of("print ;"));
    assert_eq!(p.parse(), Err(ParseError::UnexpectedToken));
}

#[test]
fn parse_unexpected_end() {
    let mut p = Parser::new(tokens_of("print 1"));
    assert_eq!(p.parse(), Err(ParseError::UnexpectedEof));
}

#[test]
fn parse_curried_call() {
    let mut p = Parser::new(tokens_of("f(a)(b);"));
    assert!(p.parse().is_ok());
}

#[test]
fn parse_return_statement() {
    let mut p = Parser::new(tokens_of("fun f() { return 1; } fun g() { return; }"));
    assert!(p.parse().is_ok());
}
