use rlox::interpreter::Interpreter;
use rlox::interpreter::RuntimeError;
use rlox::interpreter::Stop;
use rlox::lexer::lexer;
use rlox::number::Number;
use rlox::parser::Parser;

const FUEL: u64 = 1_000_000;

fn svec(xs: &[&str]) -> Vec<String> {
    xs.iter().map(|s| s.to_string()).collect()
}

fn run(source: &str) -> Vec<String> {
    let input: Vec<char> = source.chars().collect();
    let tokens = lexer(&input).unwrap();
    let mut p = Parser::new(tokens);
    let stmts = p.parse().unwrap();
    let mut i = Interpreter::new();
    i.interpret(&stmts, FUEL).unwrap();
    i.output
}

fn run_err(source: &str) -> (Result<(), Stop>, Vec<String>) {
    let input: Vec<char> = source.chars().collect();
    let tokens = lexer(&input).unwrap();
    let mut p = Parser::new(tokens);
    let stmts = p.parse().unwrap();
    let mut i = Interpreter::new();
    let r = i.interpret(&stmts, FUEL);
    (r, i.output)
}

#[test]
fn for_loop_prints_zero_one_two() {
    let out = run("for (var i = 0; i < 3; i = i + 1) { print i; }");
    assert_eq!(out, svec(&["0", "1", "2"]));
}

#[test]
fn fibonacci_of_ten_is_fifty_five() {
    let out = run(
        "fun fibonacci(n){ if (n <= 1) return n; return fibonacci(n-1) + fibonacci(n-2); } print fibonacci(10);",
    );
    assert_eq!(out, svec(&["55"]));
}

#[test]
fn early_return_skips_rest_of_body() {
    let out = run("fun f(){ print 1; return 2; print 3; } print f();");
    assert_eq!(out, svec(&["1", "2"]));
}

#[test]
fn arity_mismatch_before_body_runs() {
    let (r, out) = run_err("fun f(a){ print a; } f(1, 2);");
    assert_eq!(r, Err(Stop::Fail(RuntimeError::ArityMismatch)));
    assert_eq!(out, Vec::<String>::new());
}

#[test]
fn string_plus_number_is_a_type_mismatch() {
    let (r, out) = run_err("print \"a\" + 1;");
    assert_eq!(r, Err(Stop::Fail(RuntimeError::TypeMismatch)));
    assert_eq!(out, Vec::<String>::new());
}

#[test]
fn number_plus_string_is_a_type_mismatch() {
    let (r, _) = run_err("print 1 + \"a\";");
    assert_eq!(r, Err(Stop::Fail(RuntimeError::TypeMismatch)));
}

#[test]
fn closure_keeps_its_defining_scope_alive() {
    let out = run(
        "fun make(){ var x = 1; fun inner(){ return x; } return inner; } var g = make(); print g();",
    );
    assert_eq!(out, svec(&["1"]));
}

#[test]
fn closure_sees_later_mutation_of_captured_variable() {
    let out = run(
        "fun make(){ var x = 1; fun inner(){ return x; } x = 2; return inner; } var g = make(); print g();",
    );
    assert_eq!(out, svec(&["2"]));
}

#[test]
fn shadowing_leaves_enclosing_binding_alone() {
    let out = run(
        r#"
            var a = 1;
            {
                var a = 2;
                print a;
            }
            print a;
        "#,
    );
    assert_eq!(out, svec(&["2", "1"]));
}

#[test]
fn assignment_mutates_nearest_defining_scope() {
    let out = run(
        r#"
            var a = 1;
            {
                a = 2;
            }
            print a;
        "#,
    );
    assert_eq!(out, svec(&["2"]));
}

#[test]
fn assignment_never_creates_a_binding() {
    let (r, _) = run_err("{ b = 1; } print b;");
    assert_eq!(r, Err(Stop::Fail(RuntimeError::UndefinedVariable)));
}

#[test]
fn undefined_variable_read_fails() {
    let (r, _) = run_err("print nowhere;");
    assert_eq!(r, Err(Stop::Fail(RuntimeError::UndefinedVariable)));
}

#[test]
fn calling_a_number_is_not_callable() {
    let (r, _) = run_err("var a = 1; a(2);");
    assert_eq!(r, Err(Stop::Fail(RuntimeError::NotCallable)));
}

#[test]
fn division_by_zero_fails() {
    let (r, _) = run_err("print 1 / 0;");
    assert_eq!(r, Err(Stop::Fail(RuntimeError::DivisionByZero)));
}

#[test]
fn negating_a_boolean_is_a_type_mismatch() {
    let (r, _) = run_err("print -true;");
    assert_eq!(r, Err(Stop::Fail(RuntimeError::TypeMismatch)));
}

#[test]
fn not_on_a_number_is_a_type_mismatch() {
    let (r, _) = run_err("print !1;");
    assert_eq!(r, Err(Stop::Fail(RuntimeError::TypeMismatch)));
}

#[test]
fn logical_operands_must_be_booleans() {
    let (r, _) = run_err("print 1 and 2;");
    assert_eq!(r, Err(Stop::Fail(RuntimeError::TypeMismatch)));
}

#[test]
fn numeric_overflow_is_reported() {
    let (r, _) = run_err("print 9223372036854775807 + 1;");
    assert_eq!(r, Err(Stop::Fail(RuntimeError::Overflow)));
}

#[test]
fn an_endless_loop_runs_out_of_fuel() {
    let input: Vec<char> = "while (true) { }".chars().collect();
    let tokens = lexer(&input).unwrap();
    let mut p = Parser::new(tokens);
    let stmts = p.parse().unwrap();
    let mut i = Interpreter::new();
    assert_eq!(i.interpret(&stmts, 2_000), Err(Stop::OutOfFuel));
}

#[test]
fn exact_decimal_arithmetic() {
    let out = run("print 0.1 + 0.2; print 0.1 + 0.2 == 0.3;");
    assert_eq!(out, svec(&["0.3", "true"]));
}

#[test]
fn division_yields_exact_fractions() {
    let out = run("print 10 / 4; print 1 / 3; print 1 / 3 * 3 == 1;");
    assert_eq!(out, svec(&["2.5", "1/3", "true"]));
}

#[test]
fn number_text_forms() {
    assert_eq!(Number::new(55, 1).to_text(), "55");
    assert_eq!(Number::new(-3, 2).to_text(), "-1.5");
    assert_eq!(Number::new(333, 100).to_text(), "3.33");
    assert_eq!(Number::new(0, 5).to_text(), "0");
    assert_eq!(Number::new(-7, 1).to_text(), "-7");
    assert_eq!(Number::new(2, 6).to_text(), "1/3");
}

#[test]
fn grouping_changes_precedence() {
    let out = run("print (1 + 2) * 3; print 1 + 2 * 3;");
    assert_eq!(out, svec(&["9", "7"]));
}

#[test]
fn curried_calls_apply_left_to_right() {
    let out = run(
        "fun identity(a) { return a; } fun addPair(a, b) { return a + b; } print identity(addPair)(1, 2);",
    );
    assert_eq!(out, svec(&["3"]));
}

#[test]
fn unary_minus_and_not() {
    let out = run("print -5; print !false; print --5;");
    assert_eq!(out, svec(&["-5", "true", "5"]));
}

#[test]
fn nil_prints_as_nil() {
    let out = run("var a; print a; print nil;");
    assert_eq!(out, svec(&["nil", "nil"]));
}

#[test]
fn while_loop_early_return_escapes() {
    let out = run(
        r#"
            fun first() {
                var i = 0;
                while (true) {
                    if (i == 2) { return i; }
                    i = i + 1;
                }
            }
            print first();
        "#,
    );
    assert_eq!(out, svec(&["2"]));
}

#[test]
fn recursion_binds_function_in_its_own_scope() {
    let out = run(
        r#"
            fun countdown(n) {
                if (n > 0) {
                    print n;
                    countdown(n - 1);
                }
            }
            countdown(2);
        "#,
    );
    assert_eq!(out, svec(&["2", "1"]));
}
