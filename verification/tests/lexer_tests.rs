use rlox::lexer::lexer;
use rlox::lexer::Operator;
use rlox::lexer::Token;
use rlox::number::Number;

#[test]
fn lex_single_char() {
    let input: Vec<char> = "(} } . ; , + - /* ! = <>".chars().collect();
    let tokens = lexer(&input);
    println!("{:?}", tokens);
    assert_eq!(
        tokens.unwrap(),
        vec![
            Token::LeftParen,
            Token::RightBrace,
            Token::RightBrace,
            Token::Dot,
            Token::Semicolon,
            Token::Comma,
            Token::O(Operator::Plus),
            Token::O(Operator::Minus),
            Token::O(Operator::Slash),
            Token::O(Operator::Star),
            Token::O(Operator::Not),
            Token::Assign,
            Token::O(Operator::LessThan),
            Token::O(Operator::GreaterThan),
        ]
    );
}

#[test]
fn lex_double_char() {
    let input: Vec<char> = "== != <= >= //".chars().collect();
    let tokens = lexer(&input);
    println!("{:?}", tokens);
    assert_eq!(
        vec![
            Token::O(Operator::Equal),
            Token::O(Operator::NotEqual),
            Token::O(Operator::LessThanOrEqual),
            Token::O(Operator::GreaterThanOrEqual),
            Token::Comment,
        ],
        tokens.unwrap()
    );
}

#[test]
fn lex_alpha_literal() {
    let input: Vec<char> = "a b c and if else".chars().collect();
    let tokens = lexer(&input);
    println!("{:?}", tokens);
    assert_eq!(
        vec![
            Token::Identifier(String::from("a")),
            Token::Identifier(String::from("b")),
            Token::Identifier(String::from("c")),
            Token::O(Operator::And),
            Token::If,
            Token::Else,
        ],
        tokens.unwrap()
    );
}

#[test]
fn lex_string() {
    let input: Vec<char> = "\" a \"\"a\"".chars().collect();
    let tokens = lexer(&input);
    println!("{:?}", tokens);
    assert_eq!(
        vec![
            Token::Str(String::from(" a ")),
            Token::Str(String::from("a")),
        ],
        tokens.unwrap()
    );
}

#[test]
fn lex_float() {
    let input: Vec<char> = "3.33".chars().collect();
    let tokens = lexer(&input);
    println!("{:?}", tokens);
    assert_eq!(tokens.unwrap(), vec![Token::Num(Number::new(333, 100))]);
}

#[test]
fn lex_test() {
    let input: Vec<char> = "
            for (var a = 1; a < 10; a = a + 1) {
              print a;
            }

            var a = 1;
            while (a < 10) {
              print a;
              a = a + 1;
            }

            fun printSum(a, b) {
              print a + b;
            }

            fun addPair(a, b) {
              return a + b;
            }

            fun identity(a) {
              return a;
            }

            print identity(addPair)(1, 2); // Prints
        "
    .chars()
    .collect();
    let tokens = lexer(&input);
    println!("{:#?}", tokens);
}

#[test]
fn enum_test() {
    println!("{}", Token::O(Operator::Minus).text());
    println!("{}", Token::RightBrace.text());
    assert_eq!(Token::O(Operator::Minus).text(), "-");
    assert_eq!(Token::RightBrace.text(), "}");
}

#[test]
fn lex_unterminated_string_fails() {
    let input: Vec<char> = "var a = \"oops;".chars().collect();
    let tokens = lexer(&input);
    assert_eq!(tokens, Err(rlox::lexer::LexError::UnterminatedString));
}

#[test]
fn lex_illegal_character() {
    let input: Vec<char> = "a # b".chars().collect();
    let tokens = lexer(&input).unwrap();
    assert_eq!(
        tokens,
        vec![
            Token::Identifier(String::from("a")),
            Token::Illegal(String::from("#")),
            Token::Identifier(String::from("b")),
        ]
    );
}

#[test]
fn lex_integer_is_a_number() {
    let input: Vec<char> = "42".chars().collect();
    let tokens = lexer(&input).unwrap();
    assert_eq!(tokens, vec![Token::Num(Number::new(42, 1))]);
}

#[test]
fn lex_fraction_reduces() {
    let input: Vec<char> = "2.50".chars().collect();
    let tokens = lexer(&input).unwrap();
    assert_eq!(tokens, vec![Token::Num(Number::new(5, 2))]);
}
