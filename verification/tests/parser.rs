use std::rc::Rc;

use filipe::ast::{Expr, ExprType, Identifier, Infix, Literal, Postfix, Precedence, Prefix, Stmt};
use filipe::lexer::Lexer;
use filipe::parser::{parse_program, Parser};
use filipe::token::Token;
use filipe::writer::write_program;

fn parse(source: &str) -> Result<Vec<Stmt>, String> {
    let chars: Vec<char> = source.chars().collect();
    parse_program(&chars).map_err(|e| e.to_string())
}

fn one(source: &str) -> Stmt {
    let mut program = parse(source).unwrap();
    assert_eq!(program.len(), 1, "{source}");
    program.remove(0)
}

fn expr(source: &str) -> Expr {
    match one(source) {
        Stmt::Expr(e) => e,
        other => panic!("not an expression: {other:?}"),
    }
}

fn error(source: &str) -> String {
    parse(source).unwrap_err()
}

fn name(s: &str) -> Expr {
    Expr::Identifier(Identifier(s.to_string()))
}

fn num(v: i64) -> Expr {
    Expr::Literal(Literal::Int(v))
}

fn infix(l: Expr, op: Infix, r: Expr) -> Expr {
    Expr::Infix(Box::new(l), op, Box::new(r))
}

fn product_of_a_sum() -> Stmt {
    Stmt::Expr(infix(infix(name("a"), Infix::Plus, name("b")), Infix::Multiply, name("c")))
}

/// The text that the library writes for a program.
fn written(program: &Vec<Stmt>) -> String {
    write_program(program).into_iter().collect()
}

#[test]
fn precedence_of_product_over_sum() {
    assert_eq!(
        expr("1 + 2 * 3"),
        infix(num(1), Infix::Plus, infix(num(2), Infix::Multiply, num(3)))
    );
    assert_eq!(
        expr("1 * 2 + 3"),
        infix(infix(num(1), Infix::Multiply, num(2)), Infix::Plus, num(3))
    );
}

#[test]
fn infix_operators_associate_to_the_left() {
    assert_eq!(
        expr("1 - 2 - 3"),
        infix(infix(num(1), Infix::Minus, num(2)), Infix::Minus, num(3))
    );
    assert_eq!(
        expr("8 / 4 % 3"),
        infix(infix(num(8), Infix::Devide, num(4)), Infix::Remainder, num(3))
    );
}

#[test]
fn comparison_binds_less_than_sum() {
    assert_eq!(
        expr("a + 1 <= b"),
        infix(infix(name("a"), Infix::Plus, num(1)), Infix::LessOrEqual, name("b"))
    );
    assert_eq!(expr("a == b"), infix(name("a"), Infix::Equal, name("b")));
    assert_eq!(expr("a != b"), infix(name("a"), Infix::NotEqual, name("b")));
    assert_eq!(expr("a < b"), infix(name("a"), Infix::LessThan, name("b")));
    assert_eq!(expr("a > b"), infix(name("a"), Infix::GratherThan, name("b")));
    assert_eq!(expr("a >= b"), infix(name("a"), Infix::GratherOrEqual, name("b")));
}

#[test]
fn grouping_overrides_precedence() {
    assert_eq!(
        expr("(1 + 2) * 3"),
        infix(infix(num(1), Infix::Plus, num(2)), Infix::Multiply, num(3))
    );
}

#[test]
fn prefix_binds_tighter_than_infix() {
    assert_eq!(
        expr("-a * b"),
        infix(Expr::Prefix(Prefix::Minus, Box::new(name("a"))), Infix::Multiply, name("b"))
    );
    assert_eq!(expr("!true"), Expr::Prefix(Prefix::Not, Box::new(Expr::Literal(Literal::Boolean(true)))));
    assert_eq!(expr("+1"), Expr::Prefix(Prefix::Plus, Box::new(num(1))));
}

#[test]
fn postfix_operators() {
    assert_eq!(expr("x++"), Expr::Postfix(Box::new(name("x")), Postfix::Increment));
    assert_eq!(expr("x--"), Expr::Postfix(Box::new(name("x")), Postfix::Decrement));
    assert_eq!(
        expr("x++ + 1"),
        infix(Expr::Postfix(Box::new(name("x")), Postfix::Increment), Infix::Plus, num(1))
    );
}

#[test]
fn assignment_is_right_associative() {
    assert_eq!(
        expr("a = b = 1"),
        Expr::Assign(
            Identifier("a".to_string()),
            Box::new(Expr::Assign(Identifier("b".to_string()), Box::new(num(1))))
        )
    );
    assert_eq!(
        expr("a = 1 + 2"),
        Expr::Assign(Identifier("a".to_string()), Box::new(infix(num(1), Infix::Plus, num(2))))
    );
}

#[test]
fn assignment_needs_a_name_on_its_left() {
    assert_eq!(error("1 = 2"), "[Syntax Error]: Left side of assignment must an identifier");
    assert_eq!(error("f() = 2"), "[Syntax Error]: Left side of assignment must an identifier");
}

#[test]
fn calls_and_arguments() {
    assert_eq!(expr("f()"), Expr::Call(Box::new(name("f")), vec![]));
    assert_eq!(
        expr("f(1, a + 2)"),
        Expr::Call(Box::new(name("f")), vec![num(1), infix(name("a"), Infix::Plus, num(2))])
    );
    assert_eq!(
        expr("f(g(1))"),
        Expr::Call(Box::new(name("f")), vec![Expr::Call(Box::new(name("g")), vec![num(1)])])
    );
}

#[test]
fn trailing_comma_is_not_accepted() {
    assert_eq!(error("f(1, )"), "[Syntax Error]: unexpected )");
    assert_eq!(error("[1, ]"), "[Syntax Error]: unexpected ]");
    assert_eq!(error("f(1 2)"), "[Syntax Error]: expected ')' but provided '2'");
}

#[test]
fn array_literals() {
    assert_eq!(expr("[]"), Expr::Literal(Literal::Array(vec![])));
    assert_eq!(expr("[1, 2]"), Expr::Literal(Literal::Array(vec![num(1), num(2)])));
    assert_eq!(
        expr("[[1], []]"),
        Expr::Literal(Literal::Array(vec![
            Expr::Literal(Literal::Array(vec![num(1)])),
            Expr::Literal(Literal::Array(vec![]))
        ]))
    );
}

#[test]
fn literals() {
    assert_eq!(expr("\"hi\""), Expr::Literal(Literal::String("hi".to_string())));
    assert_eq!(expr("1.5"), Expr::Literal(Literal::Float("1.5".to_string())));
    assert_eq!(expr("true"), Expr::Literal(Literal::Boolean(true)));
    assert_eq!(expr("false"), Expr::Literal(Literal::Boolean(false)));
    assert_eq!(expr("null"), Expr::Literal(Literal::Null));
}

#[test]
fn field_access_folds_to_the_left() {
    let ab = Expr::FieldAcc(Box::new(name("a")), Box::new(name("b")));
    assert_eq!(expr("a.b"), ab);
    let call = Expr::Call(Box::new(name("c")), vec![num(1)]);
    assert_eq!(
        expr("a.b.c(1)"),
        Expr::FieldAcc(
            Box::new(Expr::FieldAcc(Box::new(name("a")), Box::new(name("b")))),
            Box::new(call)
        )
    );
    assert_eq!(
        expr("a.b + 1"),
        infix(Expr::FieldAcc(Box::new(name("a")), Box::new(name("b"))), Infix::Plus, num(1))
    );
    assert_eq!(error("a.1"), "[Syntax Error]: '1' cannot be used as identifier");
}

#[test]
fn let_statements() {
    assert_eq!(one("let x = 5"), Stmt::Let(Identifier("x".to_string()), None, Some(num(5))));
    assert_eq!(
        one("let x: int = 5"),
        Stmt::Let(Identifier("x".to_string()), Some(ExprType::Int), Some(num(5)))
    );
    assert_eq!(
        one("let x: float"),
        Stmt::Let(Identifier("x".to_string()), Some(ExprType::Float), None)
    );
    assert_eq!(
        one("let xs: Array<Array<string>> = []"),
        Stmt::Let(
            Identifier("xs".to_string()),
            Some(ExprType::Array(Box::new(ExprType::Array(Box::new(ExprType::String))))),
            Some(Expr::Literal(Literal::Array(vec![])))
        )
    );
}

#[test]
fn let_without_initializer_is_followed_by_the_next_statement() {
    let program = parse("let x: int\nprint(x)").unwrap();
    assert_eq!(program.len(), 2);
    assert_eq!(program[0], Stmt::Let(Identifier("x".to_string()), Some(ExprType::Int), None));
    assert_eq!(program[1], Stmt::Expr(Expr::Call(Box::new(name("print")), vec![name("x")])));
}

#[test]
fn let_errors() {
    assert_eq!(
        error("let x"),
        "[Syntax Error]: Missing type of 'x', provide it's type or initialize it"
    );
    assert_eq!(error("let x: void"), "[Syntax Error]: Variable 'x' can't be of type 'void'");
    assert_eq!(error("let 5 = 1"), "[Syntax Error]: '5' cannot be used as identifier");
    assert_eq!(error("let define = 1"), "[Syntax Error]: '[Defined Function]' cannot be used as identifier");
    assert_eq!(error("let x: y = 1"), "[Syntax Error]: Invalid type: y");
    assert_eq!(error("let x: Array = 1"), "[Syntax Error]: expected '<' but provided '='");
    assert_eq!(error("let x: Array<int = 1"), "[Syntax Error]: expected '>' but provided '='");
}

#[test]
fn function_definitions() {
    assert_eq!(
        one("define f(): void { }"),
        Stmt::Func(Identifier("f".to_string()), vec![], Rc::new(vec![]), ExprType::Void)
    );
    assert_eq!(
        one("define sum(a: int, b: float): int { return a }"),
        Stmt::Func(
            Identifier("sum".to_string()),
            vec![
                (Identifier("a".to_string()), ExprType::Int),
                (Identifier("b".to_string()), ExprType::Float)
            ],
            Rc::new(vec![Stmt::Return(Some(name("a")))]),
            ExprType::Int
        )
    );
}

#[test]
fn function_definition_errors() {
    assert_eq!(
        error("define f(a: void): int { }"),
        "[Syntax Error]: Function parameter can't not be of type 'void'"
    );
    assert_eq!(error("define (a: int): int { }"), "[Syntax Error]: '(' cannot be used as identifier");
    assert_eq!(error("define f(a int): int { }"), "[Syntax Error]: expected ':' but provided '[Type Annotation] int'");
    assert_eq!(error("define f(a: int) { }"), "[Syntax Error]: expected ':' but provided '{'");
    assert_eq!(error("define f(a: int,): int { }"), "[Syntax Error]: ')' cannot be used as identifier");
    assert_eq!(error("define f(): int { return 1"), "[Syntax Error]: expected '}' but provided 'EOF'");
}

#[test]
fn return_statements() {
    assert_eq!(
        one("define f(): void { return }"),
        Stmt::Func(
            Identifier("f".to_string()),
            vec![],
            Rc::new(vec![Stmt::Return(None)]),
            ExprType::Void
        )
    );
    assert_eq!(one("return"), Stmt::Return(None));
    assert_eq!(one("return 1 + 2"), Stmt::Return(Some(infix(num(1), Infix::Plus, num(2)))));
}

#[test]
fn if_statements() {
    assert_eq!(
        one("if (x) { y }"),
        Stmt::If { condition: name("x"), consequence: vec![Stmt::Expr(name("y"))], alternative: None }
    );
    assert_eq!(
        one("if x { y } else { z\nw }"),
        Stmt::If {
            condition: name("x"),
            consequence: vec![Stmt::Expr(name("y"))],
            alternative: Some(vec![Stmt::Expr(name("z")), Stmt::Expr(name("w"))])
        }
    );
    assert_eq!(error("if x y"), "[Syntax Error]: expected '{' but provided 'y'");
    assert_eq!(error("if x { y } else z"), "[Syntax Error]: expected '{' but provided 'z'");
}

#[test]
fn for_statements() {
    assert_eq!(
        one("for i in range(0, 3) { print(i) }"),
        Stmt::ForLoop {
            cursor: "i".to_string(),
            iterable: Expr::Call(Box::new(name("range")), vec![num(0), num(3)]),
            block: vec![Stmt::Expr(Expr::Call(Box::new(name("print")), vec![name("i")]))]
        }
    );
    assert_eq!(error("for 1 in x { }"), "[Syntax Error]: '1' cannot be used as identifier");
    assert_eq!(error("for i of x { }"), "[Syntax Error]: expected 'in' but provided 'of'");
}

#[test]
fn statements_follow_each_other_without_separators() {
    let program = parse("let a = 1 let b = 2\na + b").unwrap();
    assert_eq!(program.len(), 3);
}

#[test]
fn unexpected_tokens() {
    assert_eq!(error(")"), "[Syntax Error]: unexpected )");
    assert_eq!(error("1 +"), "[Syntax Error]: unexpected EOF");
    assert_eq!(error("#"), "[Syntax Error]: unexpected [Illegal Token] #");
    assert_eq!(error("(1"), "[Syntax Error]: expected ')' but provided 'EOF'");
}

#[test]
fn lexing_errors_are_syntax_errors() {
    assert_eq!(error("let s = \"abc"), "[Syntax Error]: Unbalanced '\"'");
    assert_eq!(error("\"abc"), "[Syntax Error]: Unbalanced '\"'");
    assert_eq!(error("1 + 99999999999999999999"), "[Syntax Error]: Integer literal is too large");
    assert_eq!(error("1.2.3"), "[Syntax Error]: Malformed number");
}

#[test]
fn empty_source_is_an_empty_program() {
    assert_eq!(parse(""), Ok(vec![]));
    assert_eq!(parse("  \n\t "), Ok(vec![]));
}

#[test]
fn parser_stops_at_the_first_error() {
    let chars: Vec<char> = "let a = 1\nlet = 2\nlet c = 3".chars().collect();
    let mut parser = Parser::new(Lexer::new(&chars));
    let program = parser.parse();
    assert!(parser.has_error());
    assert_eq!(program, vec![Stmt::Let(Identifier("a".to_string()), None, Some(num(1)))]);
    assert_eq!(
        parser.get_error().unwrap().to_string(),
        "[Syntax Error]: '=' cannot be used as identifier"
    );
}

#[test]
fn parsing_is_deterministic() {
    let source = "define f(a: int): int { if (a < 1) { return 0 } return a + f(a - 1) }\nf(3)";
    assert_eq!(parse(source), parse(source));
}

#[test]
fn printed_program_parses_back() {
    let sources = [
        "let x: int = 20\nprint(x + 1)",
        "define sum(a: int, b: int): int { return a + b }\nprint(sum(34, 35))",
        "for x in range(0, 3) { print(x) }",
        "let xs: Array<int> = [1, 2, 3]\nprint(xs.length())",
        "if (1 < 2) { print(\"yes\") } else { print(\"no\") }",
        "a = b = -c * (d + 2) - e++ % 3 >= !f",
        "a.b.c(1, [2, 3.5], null).d",
        "define f(): void { return }\nlet y: Array<Array<string>>\nx--",
        "print(1)\nprint(2)\nx = 3\nx++\nxs.push(x)\n[1, 2]\n!x",
        "(a.b)(1)\na.b(1)\nf(1)(2).g",
        "",
    ];
    for source in sources {
        let first = parse(source).unwrap();
        let printed = written(&first);
        let second = parse(&printed).unwrap();
        assert_eq!(first, second, "{source} printed as {printed}");
    }
}

#[test]
fn printed_tree_parses_back() {
    let tree = vec![
        Stmt::Expr(infix(
            infix(num(1), Infix::Plus, num(2)),
            Infix::Multiply,
            infix(num(3), Infix::Minus, Expr::Prefix(Prefix::Minus, Box::new(name("x")))),
        )),
        Stmt::If {
            condition: infix(name("a"), Infix::Equal, Expr::Literal(Literal::String("s".to_string()))),
            consequence: vec![Stmt::Return(None)],
            alternative: Some(vec![Stmt::Let(
                Identifier("k".to_string()),
                Some(ExprType::Boolean),
                Some(Expr::Literal(Literal::Boolean(false))),
            )]),
        },
    ];
    let printed = written(&tree);
    assert_eq!(parse(&printed), Ok(tree));
}

#[test]
fn precedence_levels_are_ordered() {
    let levels = [
        Precedence::Lowest,
        Precedence::Assign,
        Precedence::Comparison,
        Precedence::Sum,
        Precedence::Product,
        Precedence::Prefix,
        Precedence::Postfix,
        Precedence::Call,
    ];
    for pair in levels.windows(2) {
        assert!(pair[0].lower_than(&pair[1]));
        assert!(!pair[1].lower_than(&pair[0]));
        assert!(!pair[0].lower_than(&pair[0]));
    }
    assert_eq!(Parser::token_to_precedence(&Token::Plus), Precedence::Sum);
    assert_eq!(Parser::token_to_precedence(&Token::Asterisk), Precedence::Product);
    assert_eq!(Parser::token_to_precedence(&Token::Equal), Precedence::Assign);
    assert_eq!(Parser::token_to_precedence(&Token::Lparen), Precedence::Call);
    assert_eq!(Parser::token_to_precedence(&Token::Dot), Precedence::Call);
    assert_eq!(Parser::token_to_precedence(&Token::DoublePlus), Precedence::Postfix);
    assert_eq!(Parser::token_to_precedence(&Token::LessThan), Precedence::Comparison);
    assert_eq!(Parser::token_to_precedence(&Token::Rparen), Precedence::Lowest);
}

#[test]
fn operator_texts() {
    assert_eq!(Infix::Plus.to_string(), "+");
    assert_eq!(Infix::GratherOrEqual.to_string(), ">=");
    assert_eq!(Infix::Remainder.to_string(), "%");
    assert_eq!(Prefix::Not.to_string(), "!");
    assert_eq!(Postfix::Decrement.to_string(), "--");
}

#[test]
fn written_text_is_exact() {
    let cases = [
        ("let x = 1 + 2 * 3", " let x = 1 + ( 2 * 3 )"),
        ("(1 + 2) * 3", " ( 1 + 2 ) * 3"),
        ("1 + 2 + 3", " 1 + 2 + 3"),
        ("1 * 2 + 3 < 4", " 1 * 2 + 3 < 4"),
        ("1 + 2 * 3 + 4", " 1 + ( 2 * 3 ) + 4"),
        ("1 - (2 - 3)", " 1 - ( 2 - 3 )"),
        ("!a == b", " ! a == b"),
        ("-a + b", " - a + b"),
        ("-(a + b)", " - ( a + b )"),
        ("a = b = c", " a = b = c"),
        ("-x++", " - x ++"),
        ("!(a == b)", " ! ( a == b )"),
        ("f(x, y = 1)[0]", " f ( x , y = 1 ) [ 0 ]"),
        ("(a.b)(1)", " ( a . b ) ( 1 )"),
        ("a.b(1)", " a . b ( 1 )"),
        ("let s: Array<string> = [\"a\", \"\"]", " let s : Array < string > = [ \"a\" , \"\" ]"),
        (
            "define f(a: int, b: float): void { return }",
            " define f ( a : int , b : float ) : void { return }",
        ),
        ("if a { } else { b }", " if a { } else { b }"),
        ("for i in range(0, 3) { i }", " for i in range ( 0 , 3 ) { i }"),
        ("return 1.50", " return 1.50"),
        ("", ""),
    ];
    for (source, text) in cases {
        let program = parse(source).unwrap();
        assert_eq!(written(&program), text, "{source}");
    }
}

#[test]
fn written_negative_literal_is_read_as_an_operator() {
    let tree = vec![Stmt::Expr(num(-5))];
    let printed = written(&tree);
    assert_eq!(printed, " -5");
    assert_eq!(
        parse(&printed),
        Ok(vec![Stmt::Expr(Expr::Prefix(Prefix::Minus, Box::new(num(5))))])
    );
}

#[test]
fn a_statement_that_starts_with_a_parenthesis_joins_the_expression_before_it() {
    let tree = vec![Stmt::Expr(name("x")), product_of_a_sum()];
    let printed = written(&tree);
    assert_eq!(printed, " x ( a + b ) * c");
    let read = parse(&printed).unwrap();
    assert_eq!(read.len(), 1);
    let alone = vec![product_of_a_sum()];
    assert_eq!(parse(&written(&alone)), Ok(alone));
}

#[test]
fn statements_that_a_source_holds_are_written_apart() {
    let sources = [
        "x !a + b",
        "f(1) a + b + c",
        "x = 1 a * b + c == d",
        "let y = 2 !a == b",
        "return a - b - c",
    ];
    for source in sources {
        let first = parse(source).unwrap();
        let printed = written(&first);
        assert_eq!(parse(&printed), Ok(first), "{source} printed as {printed}");
    }
}

fn parse_all(source: &str) -> (Vec<Stmt>, Option<String>) {
    let input: Vec<char> = source.chars().collect();
    let mut parser = Parser::new(Lexer::new(&input));
    let program = parser.parse();
    (program, parser.get_error().map(|e| e.to_string()))
}

#[test]
fn error_of_a_parse_is_the_first_that_is_met() {
    let cases = [
        ("let 5 x", "'5' cannot be used as identifier"),
        ("let x", "Missing type of 'x', provide it's type or initialize it"),
        ("let x: void", "Variable 'x' can't be of type 'void'"),
        ("let x: y", "Invalid type: y"),
        ("let x: Array int", "expected '<' but provided '[Type Annotation] int'"),
        ("let x = )", "unexpected )"),
        ("1 = 2", "Left side of assignment must an identifier"),
        ("(1 + 2", "expected ')' but provided 'EOF'"),
        ("[1, ]", "unexpected ]"),
        ("f(1 2)", "expected ')' but provided '2'"),
        ("a.5", "'5' cannot be used as identifier"),
        ("if a b", "expected '{' but provided 'b'"),
        ("if a { b", "expected '}' but provided 'EOF'"),
        ("if a { } else b", "expected '{' but provided 'b'"),
        ("for 1 in x { }", "'1' cannot be used as identifier"),
        ("for i of x { }", "expected 'in' but provided 'of'"),
        ("define 1() { }", "'1' cannot be used as identifier"),
        ("define f { }", "expected '(' but provided '{'"),
        ("define f(a) { }", "expected ':' but provided ')'"),
        ("define f(a: void): int { }", "Function parameter can't not be of type 'void'"),
        ("define f(a: int b: int): int { }", "expected ')' but provided 'b'"),
        ("define f(): { }", "Invalid type: {"),
        ("let x = 1 ) let 5", "unexpected )"),
    ];
    for (source, message) in cases {
        let (_, error) = parse_all(source);
        assert_eq!(error, Some(format!("[Syntax Error]: {message}")), "{source}");
    }
}

#[test]
fn rejected_text_is_met_two_tokens_ahead() {
    let cases = [
        ("\"open", "Unbalanced '\"'"),
        ("x \"open", "Unbalanced '\"'"),
        ("let 5 \"open", "Unbalanced '\"'"),
        ("let 5 x \"open", "'5' cannot be used as identifier"),
        ("let x = 1 1.2.3", "Malformed number"),
        ("let x = ) 99999999999999999999", "Integer literal is too large"),
        ("let x = ) y 99999999999999999999", "unexpected )"),
        ("x 1.2.3 \"open", "Malformed number"),
    ];
    for (source, message) in cases {
        let (_, error) = parse_all(source);
        assert_eq!(error, Some(format!("[Syntax Error]: {message}")), "{source}");
    }
}

#[test]
fn statements_before_the_error_are_returned() {
    let (program, error) = parse_all("let x = 1\nprint(x)\nlet = 2\nprint(3)");
    assert_eq!(error, Some("[Syntax Error]: '=' cannot be used as identifier".to_string()));
    assert_eq!(program, parse("let x = 1\nprint(x)").unwrap());
    let (program, error) = parse_all("x\ny \"open");
    assert_eq!(error, Some("[Syntax Error]: Unbalanced '\"'".to_string()));
    assert_eq!(program, parse("x").unwrap());
    let (program, error) = parse_all("x\ny z \"open");
    assert_eq!(error, Some("[Syntax Error]: Unbalanced '\"'".to_string()));
    assert_eq!(program, parse("x\ny").unwrap());
    let (program, error) = parse_all(")");
    assert_eq!(error, Some("[Syntax Error]: unexpected )".to_string()));
    assert_eq!(program, vec![]);
}

#[test]
fn every_parsed_program_parses_back_from_its_text() {
    let sources = [
        "x !a + b",
        "a + b + c\nd * e * f\n!g == h",
        "a.b (1)\n(a.b)(1)",
        "x = y = z + 1\nx++ ++\n-x ++",
        "f(g(h(1)), [a, [b, c]], \"s\", 1.5, null, true, false)",
        "a.b.c.d(e).f(g, h).i",
        "- - a\n! ! a\n+ - ! a",
        "(((a)))\n((a + b)) * ((c))",
        "a * (b + c) * d - (e - (f - g))\na < b == c >= d != e",
        "let a: Array<Array<int>> = [[1], [2, 3]]\nlet b: float\nlet c = b",
        "define f(a: int, b: Array<string>): void { if a { return } else { return b } }",
        "for i in range(0, 10, 2) { for j in i { print(i, j) } }\n[1, 2, 3]",
        "if a { if b { c } else { d } } else { e }\nif f { }",
        "define empty(): int { }\nreturn",
        "return f(x)\nreturn",
        "\"with \0 inside\"\nlen(\"\0\")",
    ];
    for source in sources {
        if let Ok(first) = parse(source) {
            let printed = written(&first);
            assert_eq!(parse(&printed), Ok(first), "{source} printed as {printed}");
        } else {
            panic!("{source} does not parse");
        }
    }
}
