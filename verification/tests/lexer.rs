use filipe::lexer::Lexer;
use filipe::token::Token;

fn tokens_of(source: &str) -> Vec<Result<Token, String>> {
    let input = source.chars().collect::<Vec<char>>();
    let mut lexer = Lexer::new(&input);
    let mut out = vec![];
    loop {
        let token = lexer.next_token();
        let done = matches!(token, Ok(Token::Eof) | Err(_));
        out.push(token);
        if done {
            return out;
        }
    }
}

#[test]
fn test_next_token() {
    let input = r#"            
let name = "Edilson"
let age: int = 20

define sum(x: int, y: int): int {
    let result = x + y
    return result
}

print(sum(34, 35))

if sum(5, 4) >= 10 {
    print("Never get printed")
} else {
    print("Will get printed")
}

for x in range(1, 10, 2) {
    if (x % 2 == 0) {
        print(x, " is even")
    }
}
"#;
    let expected_tokens = [
        Token::Let,
        Token::Identifier("name".to_string()),
        Token::Equal,
        Token::String("Edilson".to_string()),
        Token::Let,
        Token::Identifier("age".to_string()),
        Token::Colon,
        Token::TypeInt,
        Token::Equal,
        Token::Int(20),
        Token::Func,
        Token::Identifier("sum".to_string()),
        Token::Lparen,
        Token::Identifier("x".to_string()),
        Token::Colon,
        Token::TypeInt,
        Token::Comma,
        Token::Identifier("y".to_string()),
        Token::Colon,
        Token::TypeInt,
        Token::Rparen,
        Token::Colon,
        Token::TypeInt,
        Token::Lbrace,
        Token::Let,
        Token::Identifier("result".to_string()),
        Token::Equal,
        Token::Identifier("x".to_string()),
        Token::Plus,
        Token::Identifier("y".to_string()),
        Token::Return,
        Token::Identifier("result".to_string()),
        Token::Rbrace,
        Token::Identifier("print".to_string()),
        Token::Lparen,
        Token::Identifier("sum".to_string()),
        Token::Lparen,
        Token::Int(34),
        Token::Comma,
        Token::Int(35),
        Token::Rparen,
        Token::Rparen,
        Token::If,
        Token::Identifier("sum".to_string()),
        Token::Lparen,
        Token::Int(5),
        Token::Comma,
        Token::Int(4),
        Token::Rparen,
        Token::GratherOrEqual,
        Token::Int(10),
        Token::Lbrace,
        Token::Identifier("print".to_string()),
        Token::Lparen,
        Token::String("Never get printed".to_string()),
        Token::Rparen,
        Token::Rbrace,
        Token::Else,
        Token::Lbrace,
        Token::Identifier("print".to_string()),
        Token::Lparen,
        Token::String("Will get printed".to_string()),
        Token::Rparen,
        Token::Rbrace,
        Token::For,
        Token::Identifier("x".to_string()),
        Token::In,
        Token::Identifier("range".to_string()),
        Token::Lparen,
        Token::Int(1),
        Token::Comma,
        Token::Int(10),
        Token::Comma,
        Token::Int(2),
        Token::Rparen,
        Token::Lbrace,
        Token::If,
        Token::Lparen,
        Token::Identifier("x".to_string()),
        Token::Percet,
        Token::Int(2),
        Token::DoubleEqual,
        Token::Int(0),
        Token::Rparen,
        Token::Lbrace,
        Token::Identifier("print".to_string()),
        Token::Lparen,
        Token::Identifier("x".to_string()),
        Token::Comma,
        Token::String(" is even".to_string()),
        Token::Rparen,
        Token::Rbrace,
        Token::Rbrace,
        Token::Eof,
    ];

    let input = input.chars().collect::<Vec<char>>();
    let mut lexer = Lexer::new(&input);
    for expected_token in expected_tokens {
        assert_eq!(expected_token, lexer.next_token().unwrap());
    }
}

#[test]
fn lexes_two_character_operators() {
    let got = tokens_of("== != <= >= ++ -- = ! < > + -");
    let want = vec![
        Ok(Token::DoubleEqual),
        Ok(Token::NotEqual),
        Ok(Token::LessOrEqual),
        Ok(Token::GratherOrEqual),
        Ok(Token::DoublePlus),
        Ok(Token::DoubleMinus),
        Ok(Token::Equal),
        Ok(Token::Bang),
        Ok(Token::LessThan),
        Ok(Token::GratherThan),
        Ok(Token::Plus),
        Ok(Token::Minus),
        Ok(Token::Eof),
    ];
    assert_eq!(got, want);
}

#[test]
fn lexes_punctuation_and_types() {
    let got = tokens_of("[ ] . : , % * / void float string boolean Array import null true false");
    let want = vec![
        Ok(Token::Lbracket),
        Ok(Token::Rbracket),
        Ok(Token::Dot),
        Ok(Token::Colon),
        Ok(Token::Comma),
        Ok(Token::Percet),
        Ok(Token::Asterisk),
        Ok(Token::Slash),
        Ok(Token::TypeVoid),
        Ok(Token::TypeFloat),
        Ok(Token::TypeString),
        Ok(Token::TypeBoolean),
        Ok(Token::ClassArray),
        Ok(Token::Import),
        Ok(Token::Null),
        Ok(Token::True),
        Ok(Token::False),
        Ok(Token::Eof),
    ];
    assert_eq!(got, want);
}

#[test]
fn float_literal_keeps_its_text() {
    let got = tokens_of("1.87 3.");
    assert_eq!(
        got,
        vec![
            Ok(Token::Float("1.87".to_string())),
            Ok(Token::Float("3.".to_string())),
            Ok(Token::Eof)
        ]
    );
}

#[test]
fn number_with_two_dots_is_rejected() {
    let got = tokens_of("1.2.3");
    assert_eq!(got.len(), 1);
    assert!(got[0].is_err());
}

#[test]
fn largest_integer_is_read() {
    let got = tokens_of("9223372036854775807");
    assert_eq!(got, vec![Ok(Token::Int(i64::MAX)), Ok(Token::Eof)]);
}

#[test]
fn integer_overflow_is_a_lexing_error() {
    let got = tokens_of("9223372036854775808");
    assert_eq!(got.len(), 1);
    assert!(got[0].is_err());
}

#[test]
fn unterminated_string_is_a_lexing_error() {
    let got = tokens_of("let s = \"abc");
    assert_eq!(got.len(), 4);
    assert_eq!(got[0], Ok(Token::Let));
    assert_eq!(got[3], Err("Unbalanced '\"'".to_string()));
}

#[test]
fn unknown_character_is_illegal_and_not_fatal() {
    let got = tokens_of("a # b");
    assert_eq!(
        got,
        vec![
            Ok(Token::Identifier("a".to_string())),
            Ok(Token::Illegal('#')),
            Ok(Token::Identifier("b".to_string())),
            Ok(Token::Eof)
        ]
    );
}

#[test]
fn identifier_takes_letters_then_digits() {
    let got = tokens_of("x1y2 lets");
    assert_eq!(
        got,
        vec![
            Ok(Token::Identifier("x1y2".to_string())),
            Ok(Token::Identifier("lets".to_string())),
            Ok(Token::Eof)
        ]
    );
}

#[test]
fn eof_repeats() {
    let input: Vec<char> = "  ".chars().collect();
    let mut lexer = Lexer::new(&input);
    assert_eq!(lexer.next_token(), Ok(Token::Eof));
    assert_eq!(lexer.next_token(), Ok(Token::Eof));
}

#[test]
fn empty_string_literal() {
    let got = tokens_of("\"\"");
    assert_eq!(got, vec![Ok(Token::String(String::new())), Ok(Token::Eof)]);
}

#[test]
fn token_printable_forms() {
    assert_eq!(Token::Lparen.to_string(), "(");
    assert_eq!(Token::Func.to_string(), "[Defined Function]");
    assert_eq!(Token::TypeInt.to_string(), "[Type Annotation] int");
    assert_eq!(Token::Int(-42).to_string(), "-42");
    assert_eq!(Token::Int(0).to_string(), "0");
    assert_eq!(Token::Int(i64::MIN).to_string(), "-9223372036854775808");
    assert_eq!(Token::Illegal('#').to_string(), "[Illegal Token] #");
    assert_eq!(Token::Identifier("abc".to_string()).to_string(), "abc");
    assert_eq!(Token::ClassArray.to_string(), "[Built-in Class] Array");
}

#[test]
fn null_character_is_illegal_and_the_text_after_it_is_read() {
    assert_eq!(
        tokens_of("a \0 b"),
        vec![
            Ok(Token::Identifier("a".to_string())),
            Ok(Token::Illegal('\0')),
            Ok(Token::Identifier("b".to_string())),
            Ok(Token::Eof),
        ]
    );
    assert_eq!(tokens_of("\0"), vec![Ok(Token::Illegal('\0')), Ok(Token::Eof)]);
    assert_eq!(
        tokens_of("1\0+"),
        vec![Ok(Token::Int(1)), Ok(Token::Illegal('\0')), Ok(Token::Plus), Ok(Token::Eof)]
    );
}

#[test]
fn string_literal_may_hold_a_null_character() {
    assert_eq!(
        tokens_of("\"a\0b\" c"),
        vec![
            Ok(Token::String("a\0b".to_string())),
            Ok(Token::Identifier("c".to_string())),
            Ok(Token::Eof),
        ]
    );
}

#[test]
fn end_of_input_only_where_white_space_is_left() {
    assert_eq!(tokens_of(""), vec![Ok(Token::Eof)]);
    assert_eq!(tokens_of(" \t\r\n  "), vec![Ok(Token::Eof)]);
    let input: Vec<char> = "  x \0".chars().collect();
    let mut lexer = Lexer::new(&input);
    assert!(!lexer.eof());
    assert_eq!(lexer.next_token(), Ok(Token::Identifier("x".to_string())));
    assert!(!lexer.eof());
    assert_eq!(lexer.next_token(), Ok(Token::Illegal('\0')));
    assert!(lexer.eof());
    assert_eq!(lexer.next_token(), Ok(Token::Eof));
    assert_eq!(lexer.next_token(), Ok(Token::Eof));
    assert!(lexer.eof());
}

#[test]
fn chop_while_reads_as_long_as_the_predicate_holds() {
    let input: Vec<char> = "abc123 def".chars().collect();
    let mut lexer = Lexer::new(&input);
    assert_eq!(lexer.chop_while(|c| c.is_alphabetic()), "abc");
    assert_eq!(lexer.chop_while(|c| c.is_alphabetic()), "");
    assert_eq!(lexer.chop_while(|c| c != 'e'), "123 d");
    assert_eq!(lexer.chop_while(|_| true), "ef");
    assert!(lexer.eof());
    assert_eq!(lexer.chop_while(|_| true), "");
}

#[test]
fn rejected_text_has_its_message() {
    assert_eq!(tokens_of("\"open").last(), Some(&Err("Unbalanced '\"'".to_string())));
    assert_eq!(tokens_of("1.2.3").last(), Some(&Err("Malformed number".to_string())));
    assert_eq!(
        tokens_of("x 9223372036854775808").last(),
        Some(&Err("Integer literal is too large".to_string()))
    );
}
