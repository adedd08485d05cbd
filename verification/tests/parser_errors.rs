use filipe::lexer::Lexer;
use filipe::parser::Parser;
use filipe::parser_error::{ParserErrorHandler, ParserErrorKind};
use filipe::token::Token;

#[test]
fn parser_error_slot_holds_the_error_reported_last() {
    let mut slot = ParserErrorHandler::new();
    assert!(!slot.has_error());
    assert!(slot.get_error().is_none());
    slot.set_error(ParserErrorKind::SyntaxError, "first".to_string());
    let error = slot.get_error().unwrap();
    assert_eq!(error.kind(), ParserErrorKind::SyntaxError);
    assert_eq!(error.message(), "first");
    assert_eq!(error.to_string(), "[Syntax Error]: first");
    slot.set_error(ParserErrorKind::SyntaxError, "second".to_string());
    assert!(slot.has_error());
    assert_eq!(slot.get_error().unwrap().to_string(), "[Syntax Error]: second");
    slot.set_invalid_left_side_of_assignment_error();
    assert_eq!(
        slot.get_error().unwrap().to_string(),
        "[Syntax Error]: Left side of assignment must an identifier"
    );
    slot.set_unexpexted_token_error(&Token::Rbrace);
    assert_eq!(slot.get_error().unwrap().message(), "unexpected }");
}

#[test]
fn parser_surfaces_the_first_error_of_a_parse() {
    let input: Vec<char> = "let 5 = ) ) )\nlet = 1".chars().collect();
    let mut parser = Parser::new(Lexer::new(&input));
    parser.parse();
    assert_eq!(
        parser.get_error().unwrap().to_string(),
        "[Syntax Error]: '5' cannot be used as identifier"
    );
    parser.parse();
    assert_eq!(
        parser.get_error().unwrap().to_string(),
        "[Syntax Error]: '5' cannot be used as identifier"
    );
}

#[test]
fn parser_error_messages() {
    let message = |fill: fn(&mut ParserErrorHandler)| {
        let mut slot = ParserErrorHandler::new();
        fill(&mut slot);
        slot.get_error().unwrap().message().clone()
    };
    assert_eq!(
        message(|s| s.set_invalid_left_side_of_assignment_error()),
        "Left side of assignment must an identifier"
    );
    assert_eq!(
        message(|s| s.set_identifier_error(&Token::Int(5))),
        "'5' cannot be used as identifier"
    );
    assert_eq!(
        message(|s| s.set_expected_but_provided_error(&Token::Rparen, &Token::Eof)),
        "expected ')' but provided 'EOF'"
    );
    assert_eq!(message(|s| s.set_unexpexted_token_error(&Token::Rbrace)), "unexpected }");
    assert_eq!(
        message(|s| s.set_not_type_annot_error(&Token::Identifier("y".to_string()))),
        "Invalid type: y"
    );
    assert_eq!(ParserErrorKind::SyntaxError.to_string(), "[Syntax Error]");
}
