use filipe::ast::{Expr, Identifier, Infix, Literal, Stmt};
use filipe::context::Context;
use filipe::flstdlib::builtins;
use filipe::host::Host;
use filipe::object::Object;
use filipe::repl::{eval_repl_line, is_buf_balanced, run_source};
use filipe::runtime::Runtime;
use filipe::runtime_error::ErrorKind;

#[derive(Default)]
struct TestHost {
    out: String,
    err: String,
    input: Vec<String>,
    exits: Vec<i32>,
}

impl Host for TestHost {
    fn write(&mut self, text: &str) -> bool {
        self.out.push_str(text);
        true
    }

    fn write_error(&mut self, text: &str) {
        self.err.push_str(text);
        self.err.push('\n');
    }

    fn read_line(&mut self) -> Option<String> {
        if self.input.is_empty() {
            None
        } else {
            Some(self.input.remove(0))
        }
    }

    fn exit(&mut self, code: i32) {
        self.exits.push(code);
    }

    fn float_from_text(&self, text: &str) -> u64 {
        text.parse::<f64>().unwrap_or(f64::NAN).to_bits()
    }

    fn float_to_text(&self, bits: u64) -> String {
        format!("{}", f64::from_bits(bits))
    }

    fn float_arith(&self, lhs: u64, infix: Infix, rhs: u64) -> u64 {
        let (a, b) = (f64::from_bits(lhs), f64::from_bits(rhs));
        let r = match infix {
            Infix::Plus => a + b,
            Infix::Minus => a - b,
            Infix::Multiply => a * b,
            Infix::Devide => a / b,
            _ => a % b,
        };
        r.to_bits()
    }

    fn float_compare(&self, lhs: u64, infix: Infix, rhs: u64) -> bool {
        let (a, b) = (f64::from_bits(lhs), f64::from_bits(rhs));
        match infix {
            Infix::Equal => a == b,
            Infix::NotEqual => a != b,
            Infix::LessThan => a < b,
            Infix::LessOrEqual => a <= b,
            Infix::GratherThan => a > b,
            _ => a >= b,
        }
    }

    fn float_sqrt(&self, bits: u64) -> u64 {
        f64::from_bits(bits).sqrt().to_bits()
    }

    fn float_from_int(&self, value: i64) -> u64 {
        (value as f64).to_bits()
    }
}

fn fresh() -> Runtime<TestHost> {
    Runtime::new(Context::make_global(builtins()), TestHost::default())
}

struct Ran {
    code: i32,
    out: String,
    err: String,
    kind: Option<ErrorKind>,
    exits: Vec<i32>,
}

fn run_with(source: &str, input: &[&str]) -> Ran {
    let mut rt = fresh();
    rt.host_mut().input = input.iter().map(|s| s.to_string()).collect();
    let code = run_source(&mut rt, source);
    let kind = rt.get_error().map(|e| e.kind);
    let (_, host) = rt.into_parts();
    Ran { code, out: host.out, err: host.err, kind, exits: host.exits }
}

fn run(source: &str) -> Ran {
    run_with(source, &[])
}

fn value_of(source: &str) -> Option<Object> {
    let mut rt = fresh();
    let chars: Vec<char> = source.chars().collect();
    let mut parser = filipe::parser::Parser::new(filipe::lexer::Lexer::new(&chars));
    let program = parser.parse();
    assert!(!parser.has_error(), "syntax error in {source}");
    rt.eval(&program)
}

#[test]
fn scenario_declaration_and_sum() {
    let ran = run("let x: int = 20\nprint(x + 1)");
    assert_eq!(ran.out, "21\n");
    assert_eq!(ran.code, 0);
}

#[test]
fn scenario_function_call() {
    let ran = run("define sum(a: int, b: int): int { return a + b }\nprint(sum(34, 35))");
    assert_eq!(ran.out, "69\n");
    assert_eq!(ran.code, 0);
}

#[test]
fn scenario_for_loop() {
    let ran = run("for x in range(0, 3) { print(x) }");
    assert_eq!(ran.out, "0\n1\n2\n");
}

#[test]
fn scenario_array_length() {
    let ran = run("let xs: Array<int> = [1, 2, 3]\nprint(xs.length())");
    assert_eq!(ran.out, "3\n");
}

#[test]
fn scenario_assignment_of_wrong_type() {
    let ran = run("let k = 5\nk = \"hi\"");
    assert_eq!(ran.kind, Some(ErrorKind::TypeError));
    assert_eq!(ran.code, 1);
    assert_eq!(
        ran.err,
        "[Type Error] 'k' expects value of type 'int' but provided value of type 'string'\n"
    );
}

#[test]
fn scenario_if_else() {
    let ran = run("if (1 < 2) { print(\"yes\") } else { print(\"no\") }");
    assert_eq!(ran.out, "yes\n");
}

#[test]
fn program_of_the_lexer_test_runs() {
    let source = r#"
let name = "Edilson"
let age: int = 20

define sum(x: int, y: int): int {
    let result = x + y
    return result
}

print(sum(34, 35))

if sum(5, 4) >= 10 {
    print("Never get printed")
} else {
    print("Will get printed")
}

for x in range(1, 10, 2) {
    if (x % 2 == 0) {
        print(x, " is even")
    }
}
for y in range(0, 5, 2) {
    if (y % 2 == 0) {
        print(y, " is even")
    }
}
"#;
    let ran = run(source);
    assert_eq!(ran.kind, None);
    assert_eq!(ran.out, "69\nWill get printed\n0 is even\n2 is even\n4 is even\n");
}

#[test]
fn integer_arithmetic() {
    assert_eq!(value_of("7 + 5"), Some(Object::Int(12)));
    assert_eq!(value_of("7 - 5"), Some(Object::Int(2)));
    assert_eq!(value_of("7 * 5"), Some(Object::Int(35)));
    assert_eq!(value_of("7 / 2"), Some(Object::Int(3)));
    assert_eq!(value_of("-7 / 2"), Some(Object::Int(-3)));
    assert_eq!(value_of("7 % 5"), Some(Object::Int(2)));
    assert_eq!(value_of("-7 % 5"), Some(Object::Int(-2)));
    assert_eq!(value_of("1 + 2 * 3"), Some(Object::Int(7)));
    assert_eq!(value_of("(1 + 2) * 3"), Some(Object::Int(9)));
    assert_eq!(value_of("10 - 3 - 2"), Some(Object::Int(5)));
}

#[test]
fn integer_sum_wraps_round() {
    assert_eq!(value_of("9223372036854775807 + 1"), Some(Object::Int(i64::MIN)));
    assert_eq!(value_of("9223372036854775807 * 2"), Some(Object::Int(-2)));
}

#[test]
fn integer_comparisons() {
    assert_eq!(value_of("1 < 2"), Some(Object::Boolean(true)));
    assert_eq!(value_of("2 <= 2"), Some(Object::Boolean(true)));
    assert_eq!(value_of("1 > 2"), Some(Object::Boolean(false)));
    assert_eq!(value_of("1 >= 2"), Some(Object::Boolean(false)));
    assert_eq!(value_of("1 == 1"), Some(Object::Boolean(true)));
    assert_eq!(value_of("1 != 1"), Some(Object::Boolean(false)));
}

#[test]
fn division_by_zero_is_a_value_error() {
    let ran = run("print(1 / 0)");
    assert_eq!(ran.kind, Some(ErrorKind::ValueError));
    assert_eq!(ran.out, "");
    let ran = run("print(1 % 0)");
    assert_eq!(ran.kind, Some(ErrorKind::ValueError));
}

#[test]
fn float_division_by_zero_follows_the_host() {
    let ran = run("print(1.0 / 0.0)");
    assert_eq!(ran.kind, None);
    assert_eq!(ran.out, "inf\n");
}

#[test]
fn float_arithmetic_goes_through_the_host() {
    let ran = run("print(1.5 + 2.25)\nprint(1.5 < 2.25)\nprint(-1.5)");
    assert_eq!(ran.out, "3.75\ntrue\n-1.5\n");
}

#[test]
fn string_operators() {
    assert_eq!(value_of("\"ab\" + \"cd\""), Some(Object::String("abcd".to_string())));
    assert_eq!(value_of("\"ab\" == \"ab\""), Some(Object::Boolean(true)));
    assert_eq!(value_of("\"ab\" != \"ab\""), Some(Object::Boolean(false)));
    let ran = run("\"ab\" - \"cd\"");
    assert_eq!(ran.kind, Some(ErrorKind::TypeError));
}

#[test]
fn boolean_operators() {
    assert_eq!(value_of("false < true"), Some(Object::Boolean(true)));
    assert_eq!(value_of("true <= false"), Some(Object::Boolean(false)));
    assert_eq!(value_of("true == true"), Some(Object::Boolean(true)));
    let ran = run("true + false");
    assert_eq!(ran.kind, Some(ErrorKind::TypeError));
}

#[test]
fn operands_of_different_types_are_a_type_error() {
    let ran = run("1 + \"a\"");
    assert_eq!(ran.kind, Some(ErrorKind::TypeError));
    assert_eq!(
        ran.err,
        "[Type Error] '+' operation not allowed between types int and string\n"
    );
}

#[test]
fn prefix_operators() {
    assert_eq!(value_of("!null"), Some(Object::Boolean(true)));
    assert_eq!(value_of("!true"), Some(Object::Boolean(false)));
    assert_eq!(value_of("!5"), Some(Object::Boolean(false)));
    assert_eq!(value_of("-5"), Some(Object::Int(-5)));
    assert_eq!(value_of("+5"), Some(Object::Int(5)));
    let ran = run("-\"a\"");
    assert_eq!(ran.kind, Some(ErrorKind::TypeError));
}

#[test]
fn postfix_gives_the_new_value_and_keeps_the_operand() {
    let ran = run("let x = 5\nprint(x++)\nprint(x)\nprint(x--)");
    assert_eq!(ran.out, "6\n5\n4\n");
    let ran = run("let s = \"a\"\ns++");
    assert_eq!(ran.kind, Some(ErrorKind::TypeError));
}

#[test]
fn truthiness() {
    let ran = run(
        "if null { print(1) } else { print(0) }\n\
         if false { print(1) } else { print(0) }\n\
         if 0 { print(1) } else { print(0) }\n\
         if 0.0 { print(1) } else { print(0) }\n\
         if \"\" { print(1) } else { print(0) }\n\
         if 3 { print(1) } else { print(0) }",
    );
    assert_eq!(ran.out, "0\n0\n0\n0\n1\n1\n");
}

#[test]
fn empty_array_with_annotation_binds() {
    let ran = run("let xs: Array<int> = []\nprint(xs.length())\nprint(typeof(xs))");
    assert_eq!(ran.kind, None);
    assert_eq!(ran.out, "0\nArray<int>\n");
}

#[test]
fn empty_array_without_annotation_is_a_type_error() {
    let ran = run("let xs = []");
    assert_eq!(ran.kind, Some(ErrorKind::TypeError));
}

#[test]
fn array_elements_must_be_of_one_type() {
    let ran = run("let xs = [1, \"a\"]");
    assert_eq!(ran.kind, Some(ErrorKind::TypeError));
    let ran = run("let xs: Array<int> = [\"a\"]");
    assert_eq!(ran.kind, Some(ErrorKind::TypeError));
}

#[test]
fn array_is_printed_in_echo_form() {
    let ran = run("print([1, 2, 3])\nprint([\"a\", \"b\"])");
    assert_eq!(ran.out, "[1, 2, 3]\n['a', 'b']\n");
}

#[test]
fn assigning_an_empty_array_keeps_the_element_type() {
    let ran = run("let xs = [1, 2]\nxs = []\nprint(xs.length())\nprint(typeof(xs))");
    assert_eq!(ran.kind, None);
    assert_eq!(ran.out, "0\nArray<int>\n");
}

#[test]
fn declaration_with_type_only_binds_null() {
    let ran = run("let x: int\nprint(x)");
    assert_eq!(ran.kind, None);
    assert_eq!(ran.out, "null\n");
}

#[test]
fn declaration_of_wrong_type_is_a_type_error() {
    let ran = run("let x: int = \"a\"");
    assert_eq!(ran.kind, Some(ErrorKind::TypeError));
}

#[test]
fn redeclaration_in_one_scope_is_a_name_error() {
    let ran = run("let x = 1\nlet x = 2");
    assert_eq!(ran.kind, Some(ErrorKind::NameError));
    assert_eq!(ran.err, "[Name error] 'x' already declared\n");
}

#[test]
fn redeclaration_in_a_nested_scope_is_allowed() {
    let ran = run("let x = 1\nif true { let x = 2\nprint(x) }\nprint(x)");
    assert_eq!(ran.kind, None);
    assert_eq!(ran.out, "2\n1\n");
}

#[test]
fn unknown_name_is_a_name_error() {
    let ran = run("print(y)");
    assert_eq!(ran.kind, Some(ErrorKind::NameError));
    assert_eq!(ran.err, "[Name error] 'y' is not declared\n");
}

#[test]
fn constant_cannot_be_assigned() {
    let ran = run("define f(): void { }\nf = 1");
    assert_eq!(ran.kind, Some(ErrorKind::NameError));
    assert_eq!(ran.err, "[Name error] 'f' is not assignable\n");
    let ran = run("print = 1");
    assert_eq!(ran.kind, Some(ErrorKind::NameError));
}

#[test]
fn nested_scope_assigns_to_its_parent() {
    let ran = run("let n = 0\nfor i in range(0, 4) { n = n + i }\nprint(n)");
    assert_eq!(ran.out, "6\n");
}

#[test]
fn names_of_a_left_scope_are_gone() {
    let ran = run("if true { let inner = 1 }\nprint(inner)");
    assert_eq!(ran.kind, Some(ErrorKind::NameError));
    let ran = run("for i in range(0, 2) { }\nprint(i)");
    assert_eq!(ran.kind, Some(ErrorKind::NameError));
}

#[test]
fn return_outside_of_a_function() {
    let ran = run("return 1");
    assert_eq!(ran.kind, Some(ErrorKind::NameError));
    assert_eq!(ran.err, "[Name error] 'return' outside of function\n");
}

#[test]
fn function_sees_the_global_scope_only() {
    let ran = run(
        "let g = 10\n\
         define f(): int { return g + 1 }\n\
         if true { let local = 5\nprint(f()) }",
    );
    assert_eq!(ran.out, "11\n");
    let ran = run(
        "define f(): int { return local }\n\
         if true { let local = 5\nprint(f()) }",
    );
    assert_eq!(ran.kind, Some(ErrorKind::NameError));
}

#[test]
fn call_checks_arity_and_types() {
    let ran = run("define f(a: int): int { return a }\nf(1, 2)");
    assert_eq!(ran.kind, Some(ErrorKind::TypeError));
    let ran = run("define f(a: int): int { return a }\nf(\"x\")");
    assert_eq!(ran.kind, Some(ErrorKind::TypeError));
    let ran = run("define f(a: int): string { return a }\nf(1)");
    assert_eq!(ran.kind, Some(ErrorKind::TypeError));
    let ran = run("let x = 1\nx()");
    assert_eq!(ran.kind, Some(ErrorKind::TypeError));
}

#[test]
fn void_function_returns_null() {
    let ran = run("define f(): void { print(\"in\") }\nprint(f())");
    assert_eq!(ran.kind, None);
    assert_eq!(ran.out, "in\nnull\n");
    let ran = run("define f(): void { return }\nprint(f())");
    assert_eq!(ran.out, "null\n");
}

#[test]
fn call_result_is_a_plain_value() {
    let ran = run("define f(): int { return 2 }\nprint(f() + 1)");
    assert_eq!(ran.out, "3\n");
}

#[test]
fn return_leaves_loops_and_branches() {
    let ran = run(
        "define first(n: int): int {\n\
           for i in range(0, n) { if (i == 2) { return i } }\n\
           return 0 - 1\n\
         }\n\
         print(first(5))\nprint(first(1))",
    );
    assert_eq!(ran.out, "2\n-1\n");
}

#[test]
fn recursion_works() {
    let ran = run(
        "define fact(n: int): int { if (n <= 1) { return 1 }\nreturn n * fact(n - 1) }\n\
         print(fact(10))",
    );
    assert_eq!(ran.out, "3628800\n");
}

#[test]
fn budget_ends_an_endless_recursion() {
    let mut rt = Runtime::with_budget(Context::make_global(builtins()), TestHost::default(), 500);
    let code = run_source(&mut rt, "define f(): int { return f() }\nf()");
    assert_eq!(code, 1);
    assert_eq!(rt.get_error().map(|e| e.kind), Some(ErrorKind::ValueError));
}

#[test]
fn for_loop_needs_a_range() {
    let ran = run("for x in 5 { }");
    assert_eq!(ran.kind, Some(ErrorKind::TypeError));
}

#[test]
fn for_loop_with_step() {
    let ran = run("for x in range(1, 10, 4) { print(x) }");
    assert_eq!(ran.out, "1\n5\n9\n");
    let ran = run("for x in range(3, 0) { print(x) }");
    assert_eq!(ran.out, "");
}

#[test]
fn builtin_typeof_shows_the_type() {
    let ran = run(
        "print(typeof(1))\nprint(typeof(1.5))\nprint(typeof(\"a\"))\nprint(typeof(true))\n\
         print(typeof(null))\nprint(typeof(print))\nprint(typeof([1]))\nprint(typeof(range(0, 1)))",
    );
    assert_eq!(
        ran.out,
        "int\nfloat\nstring\nboolean\nnull\nfunction\nArray<int>\nrange\n"
    );
    let ran = run("typeof()");
    assert_eq!(ran.kind, Some(ErrorKind::ArgumentError));
}

#[test]
fn builtin_range_checks_its_arguments() {
    assert_eq!(value_of("range(1, 5)"), Some(Object::Range { start: 1, end: 5, step: 1 }));
    assert_eq!(value_of("range(1, 5, 2)"), Some(Object::Range { start: 1, end: 5, step: 2 }));
    assert_eq!(run("range(1)").kind, Some(ErrorKind::ArgumentError));
    assert_eq!(run("range(1, 2, 3, 4)").kind, Some(ErrorKind::ArgumentError));
    assert_eq!(run("range(1, \"a\")").kind, Some(ErrorKind::ArgumentError));
    assert_eq!(run("range(1, 5, 0)").kind, Some(ErrorKind::ValueError));
}

#[test]
fn builtin_len_counts_bytes() {
    assert_eq!(value_of("len(\"Hello\")"), Some(Object::Int(5)));
    assert_eq!(value_of("len(\"\")"), Some(Object::Int(0)));
    assert_eq!(run("len(5)").kind, Some(ErrorKind::ArgumentError));
    assert_eq!(run("len()").kind, Some(ErrorKind::ArgumentError));
}

#[test]
fn builtin_exit_asks_the_host() {
    let ran = run("exit(3)");
    assert_eq!(ran.exits, vec![3]);
    let ran = run("exit()");
    assert_eq!(ran.exits, vec![0]);
    let ran = run("sys.exit(7)");
    assert_eq!(ran.exits, vec![7]);
    assert_eq!(run("exit(\"a\")").kind, Some(ErrorKind::ArgumentError));
    assert_eq!(run("exit(1, 2)").kind, Some(ErrorKind::ArgumentError));
}

/// The value of `receiver.method(args)`, or the class of the error.
fn method(receiver: Literal, name: &str, args: Vec<Expr>) -> Result<Option<Object>, ErrorKind> {
    let call = Expr::Call(
        Box::new(Expr::Identifier(Identifier(name.to_string()))),
        args,
    );
    let access = Expr::FieldAcc(Box::new(Expr::Literal(receiver)), Box::new(call));
    let mut rt = fresh();
    let value = rt.eval(&vec![Stmt::Expr(access)]);
    match rt.get_error() {
        Some(error) => Err(error.kind),
        None => Ok(value),
    }
}

fn text(s: &str) -> Literal {
    Literal::String(s.to_string())
}

#[test]
fn string_fields() {
    assert_eq!(value_of("\"hello\".length"), Some(Object::Int(5)));
    assert_eq!(method(text("42"), "as_int", vec![]), Ok(Some(Object::Int(42))));
    assert_eq!(method(text("-42"), "as_int", vec![]), Ok(Some(Object::Int(-42))));
    assert_eq!(method(text("+7"), "as_int", vec![]), Ok(Some(Object::Int(7))));
    assert_eq!(method(text("007"), "as_int", vec![]), Ok(Some(Object::Int(7))));
    assert_eq!(
        method(text("-9223372036854775808"), "as_int", vec![]),
        Ok(Some(Object::Int(i64::MIN)))
    );
    assert_eq!(
        method(text("9223372036854775807"), "as_int", vec![]),
        Ok(Some(Object::Int(i64::MAX)))
    );
    assert_eq!(method(text("4x"), "as_int", vec![]), Err(ErrorKind::ValueError));
    assert_eq!(method(text(""), "as_int", vec![]), Err(ErrorKind::ValueError));
    assert_eq!(method(text("-"), "as_int", vec![]), Err(ErrorKind::ValueError));
    assert_eq!(method(text(" 1"), "as_int", vec![]), Err(ErrorKind::ValueError));
    assert_eq!(
        method(text("9223372036854775808"), "as_int", vec![]),
        Err(ErrorKind::ValueError)
    );
    assert_eq!(
        method(text("-9223372036854775809"), "as_int", vec![]),
        Err(ErrorKind::ValueError)
    );
    assert_eq!(
        method(text("1"), "as_int", vec![Expr::Literal(Literal::Int(2))]),
        Err(ErrorKind::ArgumentError)
    );
    assert_eq!(run("\"1\".nothing").kind, Some(ErrorKind::NameError));
    assert_eq!(run("\"1\".nothing()").kind, Some(ErrorKind::NameError));
}

#[test]
fn integer_as_float_goes_through_the_host() {
    assert_eq!(
        method(Literal::Int(3), "as_float", vec![]),
        Ok(Some(Object::Float(3.0f64.to_bits())))
    );
    assert_eq!(
        method(Literal::Int(-2147483648), "as_float", vec![]),
        Ok(Some(Object::Float((-2147483648.0f64).to_bits())))
    );
    assert_eq!(
        method(Literal::Int(4294967296 + 5), "as_float", vec![]),
        Ok(Some(Object::Float(5.0f64.to_bits())))
    );
    assert_eq!(
        method(Literal::Int(3), "as_float", vec![Expr::Literal(Literal::Int(2))]),
        Err(ErrorKind::ArgumentError)
    );
}

#[test]
fn method_gets_its_receiver_first() {
    let items = Literal::Array(vec![
        Expr::Literal(Literal::Int(1)),
        Expr::Literal(Literal::Int(2)),
    ]);
    assert_eq!(method(items, "length", vec![]), Ok(Some(Object::Int(2))));
    assert_eq!(
        method(Literal::Array(vec![]), "length", vec![Expr::Literal(Literal::Int(2))]),
        Err(ErrorKind::ArgumentError)
    );
}

#[test]
fn fields_of_a_value_without_fields() {
    assert_eq!(run("true.x").kind, Some(ErrorKind::TypeError));
}

#[test]
fn module_math() {
    let ran = run("print(math.PI)\nprint(math.sqrt(16))\nprint(math.sqrt(2.25))\nprint(math)");
    assert_eq!(ran.out, "3.141592653589793\n4\n1.5\n[Module] Math\n");
    assert_eq!(run("math.sqrt(\"a\")").kind, Some(ErrorKind::ArgumentError));
    assert_eq!(run("math.sqrt()").kind, Some(ErrorKind::ArgumentError));
    assert_eq!(run("math.nothing").kind, Some(ErrorKind::NameError));
}

#[test]
fn module_io() {
    let ran = run_with("let s = io.gets(\"name: \")\nio.puts(\"hi \", s)", &["  Ann \n"]);
    assert_eq!(ran.out, "name: hi Ann\n");
    let ran = run_with("io.gets()", &[]);
    assert_eq!(ran.kind, Some(ErrorKind::IOError));
    assert_eq!(run("io.gets(1)").kind, Some(ErrorKind::ArgumentError));
    assert_eq!(run("io.gets(\"a\", \"b\")").kind, Some(ErrorKind::ArgumentError));
}

#[test]
fn module_random() {
    for _ in 0..50 {
        match value_of("random.randint(3, 6)") {
            Some(Object::Int(v)) => assert!((3..6).contains(&v)),
            other => panic!("unexpected {other:?}"),
        }
    }
    assert_eq!(value_of("random.randint(-1, 0)"), Some(Object::Int(-1)));
    assert_eq!(run("random.randint(5, 5)").kind, Some(ErrorKind::ValueError));
    assert_eq!(run("random.randint(1)").kind, Some(ErrorKind::ArgumentError));
    assert_eq!(run("random.randint(1, \"a\")").kind, Some(ErrorKind::ArgumentError));
}

#[test]
fn print_forms() {
    let ran = run(
        "define f(): void { }\nprint(\"a\", 1, true, null, f, print, range(0, 2))",
    );
    assert_eq!(
        ran.out,
        "a1truenull[User Defined Function][Builtin Function]range(0, 2, 1)\n"
    );
}

#[test]
fn syntax_error_is_written_and_gives_code_one() {
    let ran = run("let = 5");
    assert_eq!(ran.code, 1);
    assert_eq!(ran.out, "[Syntax Error]: '=' cannot be used as identifier\n");
    assert_eq!(ran.kind, None);
}

#[test]
fn first_error_stops_the_program() {
    let ran = run("print(1)\nprint(nothing)\nprint(2)");
    assert_eq!(ran.out, "1\n");
    assert_eq!(ran.kind, Some(ErrorKind::NameError));
}

#[test]
fn eval_gives_the_last_value() {
    assert_eq!(value_of("1\n2\n3"), Some(Object::Int(3)));
    assert_eq!(value_of("let x = 1"), None);
    assert_eq!(value_of(""), None);
}

#[test]
fn session_echoes_values_and_keeps_its_context() {
    let mut rt = fresh();
    eval_repl_line("let x = 41", &mut rt);
    eval_repl_line("x + 1", &mut rt);
    eval_repl_line("\"text\"", &mut rt);
    eval_repl_line("null", &mut rt);
    eval_repl_line("nothing", &mut rt);
    eval_repl_line("x", &mut rt);
    let (_, host) = rt.into_parts();
    assert_eq!(host.out, "42\n'text'\n41\n");
    assert_eq!(host.err, "[Name error] 'nothing' is not declared\n");
}

#[test]
fn session_special_lines() {
    let mut rt = fresh();
    eval_repl_line(".help", &mut rt);
    eval_repl_line("exit()", &mut rt);
    eval_repl_line("let = 1", &mut rt);
    let (_, host) = rt.into_parts();
    assert!(host.out.starts_with("\nHelper\n"));
    assert!(host.out.contains("Exiting...\n"));
    assert!(host.out.ends_with("[Syntax Error]: '=' cannot be used as identifier\n"));
    assert_eq!(host.exits, vec![0]);
}

#[test]
fn balanced_buffers() {
    assert!(is_buf_balanced(""));
    assert!(is_buf_balanced("let x = 1"));
    assert!(is_buf_balanced("if true { print(1) }"));
    assert!(!is_buf_balanced("define f(): int {"));
    assert!(!is_buf_balanced("{ { }"));
    assert!(is_buf_balanced("} {"));
    assert!(is_buf_balanced("}"));
}

#[test]
fn as_float_then_truncation_gives_the_integer_back() {
    for v in [0i64, 1, -1, 42, -12345, 2147483647, -2147483648] {
        match method(Literal::Int(v), "as_float", vec![]) {
            Ok(Some(Object::Float(bits))) => assert_eq!(f64::from_bits(bits) as i64, v),
            other => panic!("unexpected {other:?}"),
        }
    }
}

#[test]
fn random_integers_vary_within_their_range() {
    let mut seen = vec![];
    for _ in 0..200 {
        match value_of("random.randint(5, 1000005)") {
            Some(Object::Int(v)) => {
                assert!((5..1000005).contains(&v));
                if !seen.contains(&v) {
                    seen.push(v);
                }
            }
            other => panic!("unexpected {other:?}"),
        }
    }
    assert!(seen.len() > 1);
}

#[test]
fn function_value_keeps_its_body() {
    let ran = run(
        "define twice(a: int): int { let b = a + a\nreturn b }\n\
         let f = twice\nprint(f(4))\nprint(twice(5))",
    );
    assert_eq!(ran.kind, None);
    assert_eq!(ran.out, "8\n10\n");
}

#[test]
fn evaluator_with_builtins_binds_the_standard_library() {
    let rt = Runtime::with_builtins(TestHost::default());
    let (ctx, _) = rt.into_parts();
    assert_eq!(ctx.depth(), 1);
    for name in ["print", "exit", "typeof", "range", "len", "true", "false", "null", "math", "io", "random", "sys"] {
        let info = ctx.resolve(name).unwrap_or_else(|| panic!("{name} is missing"));
        assert!(!info.is_mut);
    }
    assert!(ctx.in_context_type(filipe::context::ContextType::Global));
    let mut rt = Runtime::with_builtins(TestHost::default());
    assert_eq!(run_source(&mut rt, "print(len(\"abc\"))"), 0);
    assert_eq!(rt.host().out, "3\n");
}

#[test]
fn evaluation_goes_on_after_the_host_has_decided() {
    let ran = run(
        "let height: float = 1.87\nlet tall = height > 1.5\nprint(typeof(height), \" \", tall)\n\
         let n = random.randint(2, 3)\nprint(n + 1)",
    );
    assert_eq!(ran.kind, None);
    assert_eq!(ran.out, "float true\n3\n");
}

#[test]
fn help_names_where_to_report() {
    let mut rt = fresh();
    eval_repl_line(".help", &mut rt);
    let (_, host) = rt.into_parts();
    assert!(host.out.contains("report to: dev.258.edilson@gmail.com"));
    assert!(host.out.contains("open issue: https://github.com/edilson258/filipe"));
}

fn statements(source: &str) -> Vec<Stmt> {
    let chars: Vec<char> = source.chars().collect();
    filipe::parser::parse_program(&chars).unwrap()
}

#[test]
fn if_statement_leaves_its_scope() {
    let sources = [
        "if true { let a = 1 }",
        "if false { let a = 1 } else { let a = 2 }",
        "if false { let a = 1 }",
    ];
    for source in sources {
        let mut rt = fresh();
        let depth = rt.context().depth();
        let Stmt::If { condition, consequence, alternative } = statements(source).remove(0) else {
            panic!("not an if statement");
        };
        rt.eval_if_stmt(&condition, &consequence, &alternative);
        assert!(!rt.has_error());
        assert_eq!(rt.context().depth(), depth);
        assert!(rt.context().resolve("a").is_none());
        assert!(rt.context().resolve("print").is_some());
    }
}

#[test]
fn range_loop_leaves_its_scope() {
    let mut rt = fresh();
    let depth = rt.context().depth();
    let block = statements("print(cursor)");
    assert_eq!(rt.eval_range_forloop(&"cursor".to_string(), 0, 3, 1, &block), None);
    assert!(!rt.has_error());
    assert_eq!(rt.context().depth(), depth);
    assert!(rt.context().resolve("cursor").is_none());
    assert_eq!(rt.host().out, "0\n1\n2\n");
    let block = statements("let inner = cursor");
    assert_eq!(rt.eval_range_forloop(&"cursor".to_string(), 5, 6, 1, &block), None);
    assert!(!rt.has_error());
    assert!(rt.context().resolve("cursor").is_none());
    assert!(rt.context().resolve("inner").is_none());
    let Stmt::ForLoop { cursor, iterable, block } =
        statements("for i in range(0, 2) { i }").remove(0)
    else {
        panic!("not a loop");
    };
    assert_eq!(rt.eval_forloop_stmt(&cursor, &iterable, &block), None);
    assert!(!rt.has_error());
    assert_eq!(rt.context().depth(), depth);
    assert!(rt.context().resolve("i").is_none());
}

#[test]
fn return_outside_a_function_has_its_message() {
    let mut rt = fresh();
    let value = Some(Expr::Literal(Literal::Int(1)));
    assert_eq!(rt.eval_return(&value), None);
    let error = rt.get_error().unwrap();
    assert_eq!(error.kind, ErrorKind::NameError);
    assert_eq!(error.msg, "'return' outside of function");
    assert_eq!(rt.eval_return(&None), None);
    assert_eq!(rt.get_error().unwrap().msg, "'return' outside of function");
}
