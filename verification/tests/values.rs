use std::rc::Rc;

use filipe::ast::{ExprType, Infix, Postfix, Prefix};
use filipe::binding::{
    assign_value, bind_inferred, check_argument, check_declared_type, check_return, default_value,
};
use filipe::flstdlib::{
    fields_of, make_integer, make_string, module_io, module_math, module_random, module_sys,
    PI_BITS,
};
use filipe::host::Host;
use filipe::natives::{
    array_length, call_builtin, exit_code, float_operand, low_word, filipe_len, filipe_range, filipe_typeof, gets_outcome, parse_int,
    print_line, string_as_integer, trim,
};
use filipe::object::{
    BuiltIn, BuiltInFuncReturnValue, FieldsManager, FunctionParam, Module, Object, ObjectInfo,
};
use filipe::operators::{
    eval_infix, eval_infix_bool_expr, eval_infix_int_expr, eval_infix_string_expr, eval_postfix,
    eval_prefix, is_truthy,
};
use filipe::runtime_error::{ErrorKind, RuntimeError, RuntimeErrorHandler};
use filipe::text::{bool_to_string, chars_of, int_to_string, join, string_from_chars};
use filipe::type_system::{expr_type_to_object_type, is_types_equivalents, type_binds_to, Type};

struct Floats;

impl Host for Floats {
    fn write(&mut self, _text: &str) -> bool {
        true
    }
    fn write_error(&mut self, _text: &str) {}
    fn read_line(&mut self) -> Option<String> {
        None
    }
    fn exit(&mut self, _code: i32) {}
    fn float_from_text(&self, text: &str) -> u64 {
        text.parse::<f64>().unwrap_or(f64::NAN).to_bits()
    }
    fn float_to_text(&self, bits: u64) -> String {
        format!("{}", f64::from_bits(bits))
    }
    fn float_arith(&self, lhs: u64, infix: Infix, rhs: u64) -> u64 {
        let (a, b) = (f64::from_bits(lhs), f64::from_bits(rhs));
        let r = match infix {
            Infix::Plus => a + b,
            Infix::Minus => a - b,
            Infix::Multiply => a * b,
            Infix::Devide => a / b,
            _ => a % b,
        };
        r.to_bits()
    }
    fn float_compare(&self, lhs: u64, infix: Infix, rhs: u64) -> bool {
        let (a, b) = (f64::from_bits(lhs), f64::from_bits(rhs));
        match infix {
            Infix::Equal => a == b,
            Infix::NotEqual => a != b,
            Infix::LessThan => a < b,
            Infix::LessOrEqual => a <= b,
            Infix::GratherThan => a > b,
            _ => a >= b,
        }
    }
    fn float_sqrt(&self, bits: u64) -> u64 {
        f64::from_bits(bits).sqrt().to_bits()
    }
    fn float_from_int(&self, value: i64) -> u64 {
        (value as f64).to_bits()
    }
}

fn arg(value: Object) -> ObjectInfo {
    ObjectInfo { is_mut: true, type_: value.ask_type(), value }
}

fn text(s: &str) -> Object {
    Object::String(s.to_string())
}

fn float(v: f64) -> Object {
    Object::Float(v.to_bits())
}

fn array(items: Vec<Object>, items_type: Option<Type>) -> Object {
    Object::Array { inner: items, items_type }
}

fn kind_of(r: Result<Object, RuntimeError>) -> ErrorKind {
    r.unwrap_err().kind
}

fn error_of(r: BuiltInFuncReturnValue) -> ErrorKind {
    match r {
        BuiltInFuncReturnValue::Error(e) => e.kind,
        BuiltInFuncReturnValue::Object(o) => panic!("unexpected value {o:?}"),
    }
}

fn value_of(r: BuiltInFuncReturnValue) -> Object {
    match r {
        BuiltInFuncReturnValue::Object(o) => o,
        BuiltInFuncReturnValue::Error(e) => panic!("unexpected error {e:?}"),
    }
}

#[test]
fn type_names() {
    assert_eq!(Type::Null.to_string(), "null");
    assert_eq!(Type::Void.to_string(), "void");
    assert_eq!(Type::Int.to_string(), "int");
    assert_eq!(Type::Float.to_string(), "float");
    assert_eq!(Type::String.to_string(), "string");
    assert_eq!(Type::Boolean.to_string(), "boolean");
    assert_eq!(Type::Function.to_string(), "function");
    assert_eq!(Type::Array(Some(Box::new(Type::Int))).to_string(), "Array<int>");
    assert_eq!(
        Type::Array(Some(Box::new(Type::Array(Some(Box::new(Type::String)))))).to_string(),
        "Array<Array<string>>"
    );
    assert_eq!(Type::Array(None).to_string(), "Array<any>");
    assert_eq!(Type::Module.to_string(), "[Module]");
}

#[test]
fn type_equality_is_structural() {
    let ints = Type::Array(Some(Box::new(Type::Int)));
    assert!(ints.same(&Type::Array(Some(Box::new(Type::Int)))));
    assert!(!ints.same(&Type::Array(Some(Box::new(Type::Float)))));
    assert!(!ints.same(&Type::Array(None)));
    assert!(!Type::Null.same(&Type::Void));
    assert_eq!(ints.clone(), ints);
}

#[test]
fn empty_array_literal_binds_to_any_array_type() {
    let ints = Type::Array(Some(Box::new(Type::Int)));
    assert!(type_binds_to(&ints, &Type::Array(None)));
    assert!(type_binds_to(&ints, &ints));
    assert!(!type_binds_to(&ints, &Type::Array(Some(Box::new(Type::String)))));
    assert!(!type_binds_to(&Type::Int, &Type::Array(None)));
    assert!(!type_binds_to(&Type::Array(None), &ints));
}

#[test]
fn void_and_null_stand_for_each_other() {
    assert!(is_types_equivalents(&Type::Void, &Type::Null));
    assert!(is_types_equivalents(&Type::Null, &Type::Void));
    assert!(!is_types_equivalents(&Type::Void, &Type::Void));
    assert!(!is_types_equivalents(&Type::Int, &Type::Null));
}

#[test]
fn annotations_denote_types() {
    assert_eq!(expr_type_to_object_type(&ExprType::Int), Type::Int);
    assert_eq!(expr_type_to_object_type(&ExprType::Void), Type::Void);
    assert_eq!(
        expr_type_to_object_type(&ExprType::Array(Box::new(ExprType::Boolean))),
        Type::Array(Some(Box::new(Type::Boolean)))
    );
}

#[test]
fn ask_type_of_values() {
    assert_eq!(Object::Null.ask_type(), Type::Null);
    assert_eq!(Object::Int(1).ask_type(), Type::Int);
    assert_eq!(float(1.0).ask_type(), Type::Float);
    assert_eq!(text("a").ask_type(), Type::String);
    assert_eq!(Object::Boolean(true).ask_type(), Type::Boolean);
    assert_eq!(Object::Type(Type::Int).ask_type(), Type::TypeAnnot);
    assert_eq!(Object::Range { start: 0, end: 1, step: 1 }.ask_type(), Type::Range);
    assert_eq!(Object::BuiltInFunction(BuiltIn::Len).ask_type(), Type::Function);
    assert_eq!(
        Object::UserDefinedFunction { params: vec![], body: Rc::new(vec![]), return_type: Type::Void }
            .ask_type(),
        Type::Function
    );
    assert_eq!(Object::RetVal(Box::new(Object::Int(1))).ask_type(), Type::Int);
    assert_eq!(array(vec![], None).ask_type(), Type::Array(None));
    assert_eq!(
        array(vec![Object::Int(1)], Some(Type::Int)).ask_type(),
        Type::Array(Some(Box::new(Type::Int)))
    );
    assert_eq!(module_math().ask_type(), Type::Module);
}

#[test]
fn echo_and_plain_forms() {
    let host = Floats;
    assert_eq!(text("hi").to_string(&host), "'hi'");
    assert_eq!(text("hi").to_plain_string(&host), "hi");
    assert_eq!(Object::Int(-7).to_string(&host), "-7");
    assert_eq!(float(1.5).to_string(&host), "1.5");
    assert_eq!(Object::Null.to_string(&host), "null");
    assert_eq!(Object::Boolean(false).to_string(&host), "false");
    assert_eq!(Object::Type(Type::Float).to_string(&host), "float");
    assert_eq!(Object::BuiltInFunction(BuiltIn::Print).to_string(&host), "[Builtin Function]");
    assert_eq!(Object::RetVal(Box::new(Object::Int(3))).to_string(&host), "3");
    assert_eq!(
        Object::Range { start: 1, end: 10, step: 2 }.to_string(&host),
        "range(1, 10, 2)"
    );
    assert_eq!(array(vec![], None).to_string(&host), "[]");
    assert_eq!(
        array(vec![text("a"), text("b")], Some(Type::String)).to_plain_string(&host),
        "['a', 'b']"
    );
    assert_eq!(
        array(
            vec![array(vec![Object::Int(1)], Some(Type::Int)), array(vec![], Some(Type::Int))],
            Some(Type::Array(Some(Box::new(Type::Int))))
        )
        .to_string(&host),
        "[[1], []]"
    );
    assert_eq!(module_math().to_string(&host), "[Module] Math");
    assert_eq!(module_io().to_string(&host), "[Module] io");
}

#[test]
fn clone_is_a_deep_copy() {
    let original = array(
        vec![array(vec![text("a")], Some(Type::String))],
        Some(Type::Array(Some(Box::new(Type::String)))),
    );
    let copy = original.clone();
    assert_eq!(copy, original);
    let info = ObjectInfo { is_mut: false, type_: Type::Module, value: module_sys() };
    assert_eq!(info.clone(), info);
}

#[test]
fn truthiness_of_values() {
    assert!(!is_truthy(&Object::Null));
    assert!(!is_truthy(&Object::Boolean(false)));
    assert!(is_truthy(&Object::Boolean(true)));
    assert!(!is_truthy(&Object::Int(0)));
    assert!(is_truthy(&Object::Int(-1)));
    assert!(!is_truthy(&float(0.0)));
    assert!(!is_truthy(&float(-0.0)));
    assert!(is_truthy(&float(0.5)));
    assert!(is_truthy(&float(f64::NAN)));
    assert!(is_truthy(&text("")));
    assert!(is_truthy(&array(vec![], None)));
}

#[test]
fn integer_operators() {
    let v = |r: Result<Object, RuntimeError>| r.unwrap();
    assert_eq!(v(eval_infix_int_expr(6, Infix::Plus, 3)), Object::Int(9));
    assert_eq!(v(eval_infix_int_expr(6, Infix::Minus, 9)), Object::Int(-3));
    assert_eq!(v(eval_infix_int_expr(6, Infix::Multiply, 3)), Object::Int(18));
    assert_eq!(v(eval_infix_int_expr(7, Infix::Devide, 2)), Object::Int(3));
    assert_eq!(v(eval_infix_int_expr(-7, Infix::Devide, 2)), Object::Int(-3));
    assert_eq!(v(eval_infix_int_expr(7, Infix::Devide, -2)), Object::Int(-3));
    assert_eq!(v(eval_infix_int_expr(-7, Infix::Remainder, 2)), Object::Int(-1));
    assert_eq!(v(eval_infix_int_expr(7, Infix::Remainder, -2)), Object::Int(1));
    assert_eq!(v(eval_infix_int_expr(i64::MAX, Infix::Plus, 1)), Object::Int(i64::MIN));
    assert_eq!(v(eval_infix_int_expr(i64::MIN, Infix::Minus, 1)), Object::Int(i64::MAX));
    assert_eq!(v(eval_infix_int_expr(3, Infix::LessThan, 3)), Object::Boolean(false));
    assert_eq!(v(eval_infix_int_expr(3, Infix::LessOrEqual, 3)), Object::Boolean(true));
    assert_eq!(kind_of(eval_infix_int_expr(1, Infix::Devide, 0)), ErrorKind::ValueError);
    assert_eq!(kind_of(eval_infix_int_expr(1, Infix::Remainder, 0)), ErrorKind::ValueError);
    assert_eq!(kind_of(eval_infix_int_expr(i64::MIN, Infix::Devide, -1)), ErrorKind::ValueError);
    assert_eq!(kind_of(eval_infix_int_expr(i64::MIN, Infix::Remainder, -1)), ErrorKind::ValueError);
}

#[test]
fn string_and_boolean_operators() {
    let a = "ab".to_string();
    let b = "cd".to_string();
    assert_eq!(eval_infix_string_expr(&a, Infix::Plus, &b).unwrap(), text("abcd"));
    assert_eq!(eval_infix_string_expr(&a, Infix::Equal, &b).unwrap(), Object::Boolean(false));
    assert_eq!(eval_infix_string_expr(&a, Infix::NotEqual, &b).unwrap(), Object::Boolean(true));
    assert_eq!(kind_of(eval_infix_string_expr(&a, Infix::LessThan, &b)), ErrorKind::TypeError);
    assert_eq!(eval_infix_bool_expr(false, Infix::LessThan, true).unwrap(), Object::Boolean(true));
    assert_eq!(eval_infix_bool_expr(true, Infix::LessThan, true).unwrap(), Object::Boolean(false));
    assert_eq!(eval_infix_bool_expr(true, Infix::GratherThan, false).unwrap(), Object::Boolean(true));
    assert_eq!(eval_infix_bool_expr(true, Infix::GratherOrEqual, true).unwrap(), Object::Boolean(true));
    assert_eq!(eval_infix_bool_expr(true, Infix::LessOrEqual, false).unwrap(), Object::Boolean(false));
    assert_eq!(kind_of(eval_infix_bool_expr(true, Infix::Plus, false)), ErrorKind::TypeError);
}

#[test]
fn operator_result_types_follow_the_rule() {
    let host = Floats;
    let cases = [
        (Object::Int(1), Infix::Plus, Object::Int(2), Type::Int),
        (Object::Int(1), Infix::LessThan, Object::Int(2), Type::Boolean),
        (float(1.0), Infix::Multiply, float(2.0), Type::Float),
        (float(1.0), Infix::GratherOrEqual, float(2.0), Type::Boolean),
        (text("a"), Infix::Plus, text("b"), Type::String),
        (text("a"), Infix::Equal, text("b"), Type::Boolean),
        (Object::Boolean(true), Infix::NotEqual, Object::Boolean(false), Type::Boolean),
    ];
    for (l, op, r, t) in cases {
        assert_eq!(eval_infix(&host, &l, op, &r).unwrap().ask_type(), t);
    }
    assert_eq!(kind_of(eval_infix(&host, &Object::Int(1), Infix::Plus, &float(1.0))), ErrorKind::TypeError);
    assert_eq!(kind_of(eval_infix(&host, &Object::Null, Infix::Equal, &Object::Null)), ErrorKind::TypeError);
    assert_eq!(eval_infix(&host, &float(1.5), Infix::Plus, &float(2.0)).unwrap(), float(3.5));
}

#[test]
fn unary_operators() {
    assert_eq!(eval_prefix(Prefix::Not, &Object::Null).unwrap(), Object::Boolean(true));
    assert_eq!(eval_prefix(Prefix::Not, &Object::Boolean(true)).unwrap(), Object::Boolean(false));
    assert_eq!(eval_prefix(Prefix::Not, &Object::Int(0)).unwrap(), Object::Boolean(false));
    assert_eq!(eval_prefix(Prefix::Minus, &Object::Int(5)).unwrap(), Object::Int(-5));
    assert_eq!(eval_prefix(Prefix::Minus, &Object::Int(i64::MIN)).unwrap(), Object::Int(i64::MIN));
    assert_eq!(eval_prefix(Prefix::Minus, &float(1.5)).unwrap(), float(-1.5));
    assert_eq!(eval_prefix(Prefix::Minus, &float(0.0)).unwrap(), float(-0.0));
    assert_eq!(eval_prefix(Prefix::Plus, &float(1.5)).unwrap(), float(1.5));
    assert_eq!(kind_of(eval_prefix(Prefix::Plus, &text("a"))), ErrorKind::TypeError);
    assert_eq!(eval_postfix(&Object::Int(5), Postfix::Increment).unwrap(), Object::Int(6));
    assert_eq!(eval_postfix(&Object::Int(5), Postfix::Decrement).unwrap(), Object::Int(4));
    assert_eq!(eval_postfix(&Object::Int(i64::MAX), Postfix::Increment).unwrap(), Object::Int(i64::MIN));
    assert_eq!(kind_of(eval_postfix(&float(1.0), Postfix::Increment)), ErrorKind::TypeError);
}

#[test]
fn declarations_bind_by_the_rules() {
    let name = "x".to_string();
    let ints = Type::Array(Some(Box::new(Type::Int)));
    assert!(check_declared_type(&Type::Int).is_ok());
    assert!(check_declared_type(&ints).is_ok());
    assert_eq!(check_declared_type(&Type::Void).unwrap_err().kind, ErrorKind::TypeError);
    assert_eq!(
        check_declared_type(&Type::Array(Some(Box::new(Type::Void)))).unwrap_err().kind,
        ErrorKind::TypeError
    );
    assert_eq!(default_value(&Type::Int), Object::Null);
    assert_eq!(default_value(&ints), array(vec![], Some(Type::Int)));
    assert_eq!(bind_inferred(&name, Object::Int(3)).unwrap(), (Object::Int(3), Type::Int));
    assert_eq!(bind_inferred(&name, array(vec![], None)).unwrap_err().kind, ErrorKind::TypeError);
    assert_eq!(assign_value(&name, &Type::Int, Object::Int(3)).unwrap(), Object::Int(3));
    assert_eq!(kind_of(assign_value(&name, &Type::Int, text("a"))), ErrorKind::TypeError);
    assert_eq!(kind_of(assign_value(&name, &Type::Int, Object::Null)), ErrorKind::TypeError);
    assert_eq!(
        assign_value(&name, &ints, array(vec![], None)).unwrap(),
        array(vec![], Some(Type::Int))
    );
    assert_eq!(
        kind_of(assign_value(&name, &ints, array(vec![text("a")], Some(Type::String)))),
        ErrorKind::TypeError
    );
    assert_eq!(kind_of(assign_value(&name, &ints, Object::Int(1))), ErrorKind::TypeError);
}

#[test]
fn arguments_and_returns_are_checked() {
    let f = "f".to_string();
    let param = FunctionParam { name: "a".to_string(), type_: Type::Int };
    assert!(check_argument(&param, &arg(Object::Int(1))).is_ok());
    assert_eq!(check_argument(&param, &arg(text("a"))).unwrap_err().kind, ErrorKind::TypeError);
    let untyped = FunctionParam { name: "a".to_string(), type_: Type::Array(None) };
    assert_eq!(
        check_argument(&untyped, &arg(array(vec![], None))).unwrap_err().kind,
        ErrorKind::TypeError
    );
    let returned = |v: Object| Some(Object::RetVal(Box::new(v)));
    assert_eq!(check_return(&f, &Type::Int, returned(Object::Int(1))).unwrap(), Object::Int(1));
    assert_eq!(check_return(&f, &Type::Void, None).unwrap(), Object::Null);
    assert_eq!(check_return(&f, &Type::Void, Some(Object::Null)).unwrap(), Object::Null);
    assert_eq!(check_return(&f, &Type::Void, returned(Object::Null)).unwrap(), Object::Null);
    assert_eq!(kind_of(check_return(&f, &Type::Int, None)), ErrorKind::TypeError);
    assert_eq!(kind_of(check_return(&f, &Type::Void, returned(Object::Int(1)))), ErrorKind::TypeError);
    assert_eq!(kind_of(check_return(&f, &Type::Int, returned(text("a")))), ErrorKind::TypeError);
}

#[test]
fn fields_of_values() {
    let fields = fields_of(&text("héllo")).unwrap();
    assert_eq!(fields.access("length"), Some(Object::Int(6)));
    assert_eq!(fields.access("as_int"), Some(Object::BuiltInFunction(BuiltIn::StringAsInt)));
    assert_eq!(fields.access("nothing"), None);
    let fields = fields_of(&Object::Int(3)).unwrap();
    assert_eq!(fields.access("as_float"), Some(Object::BuiltInFunction(BuiltIn::IntAsFloat)));
    let fields = fields_of(&array(vec![], None)).unwrap();
    assert_eq!(fields.access("length"), Some(Object::BuiltInFunction(BuiltIn::ArrayLength)));
    let fields = fields_of(&module_math()).unwrap();
    assert_eq!(fields.access("PI"), Some(Object::Float(std::f64::consts::PI.to_bits())));
    assert_eq!(fields.access("sqrt"), Some(Object::BuiltInFunction(BuiltIn::MathSqrt)));
    assert_eq!(PI_BITS, std::f64::consts::PI.to_bits());
    assert!(fields_of(&Object::Boolean(true)).is_none());
    assert!(fields_of(&Object::Null).is_none());
    assert_eq!(make_string("ab".to_string()).value, "ab");
    assert_eq!(make_integer(4).value, 4);
}

#[test]
fn field_map_gives_the_last_entry_of_a_name() {
    let fields = FieldsManager::make(vec![
        ("a".to_string(), Object::Int(1)),
        ("b".to_string(), Object::Int(2)),
        ("a".to_string(), Object::Int(3)),
    ]);
    assert_eq!(fields.access("a"), Some(Object::Int(3)));
    assert_eq!(fields.access("b"), Some(Object::Int(2)));
    let module = Module::make("m".to_string(), vec![("x".to_string(), Object::Null)]);
    assert_eq!(module.name, "m");
    assert_eq!(module.fields.access("x"), Some(Object::Null));
}

#[test]
fn modules_hold_their_functions() {
    let has = |module: Object, field: &str, which: BuiltIn| {
        assert_eq!(
            fields_of(&module).unwrap().access(field),
            Some(Object::BuiltInFunction(which))
        );
    };
    has(module_io(), "puts", BuiltIn::IoPuts);
    has(module_io(), "gets", BuiltIn::IoGets);
    has(module_random(), "randint", BuiltIn::RandInt);
    has(module_sys(), "exit", BuiltIn::SysExit);
}

#[test]
fn natives_check_their_arguments() {
    assert_eq!(value_of(filipe_typeof(vec![arg(Object::Int(1))])), Object::Type(Type::Int));
    assert_eq!(error_of(filipe_typeof(vec![])), ErrorKind::ArgumentError);
    assert_eq!(
        value_of(filipe_range(vec![arg(Object::Int(1)), arg(Object::Int(4))])),
        Object::Range { start: 1, end: 4, step: 1 }
    );
    assert_eq!(
        value_of(filipe_range(vec![arg(Object::Int(4)), arg(Object::Int(1)), arg(Object::Int(-1))])),
        Object::Range { start: 4, end: 1, step: -1 }
    );
    assert_eq!(
        error_of(filipe_range(vec![arg(Object::Int(4)), arg(Object::Int(1)), arg(Object::Int(0))])),
        ErrorKind::ValueError
    );
    assert_eq!(error_of(filipe_range(vec![arg(Object::Int(4))])), ErrorKind::ArgumentError);
    assert_eq!(value_of(filipe_len(vec![arg(text("héllo"))])), Object::Int(6));
    assert_eq!(error_of(filipe_len(vec![arg(Object::Int(1))])), ErrorKind::ArgumentError);
    assert_eq!(
        value_of(array_length(vec![arg(array(vec![Object::Int(1), Object::Int(2)], Some(Type::Int)))])),
        Object::Int(2)
    );
    assert_eq!(error_of(array_length(vec![arg(Object::Int(1))])), ErrorKind::ArgumentError);
    assert_eq!(value_of(string_as_integer(vec![arg(text("12"))])), Object::Int(12));
    assert_eq!(error_of(string_as_integer(vec![arg(Object::Int(1))])), ErrorKind::ValueError);
    assert_eq!(error_of(string_as_integer(vec![])), ErrorKind::ArgumentError);
}

#[test]
fn natives_through_the_dispatch() {
    let mut host = Floats;
    assert_eq!(
        value_of(call_builtin(&mut host, BuiltIn::MathSqrt, vec![arg(Object::Int(9))])),
        float(3.0)
    );
    assert_eq!(
        value_of(call_builtin(&mut host, BuiltIn::IntAsFloat, vec![arg(Object::Int(2))])),
        float(2.0)
    );
    assert_eq!(value_of(call_builtin(&mut host, BuiltIn::Print, vec![arg(text("x"))])), Object::Null);
    assert_eq!(value_of(call_builtin(&mut host, BuiltIn::Exit, vec![])), Object::Null);
    assert_eq!(
        error_of(call_builtin(&mut host, BuiltIn::IoGets, vec![])),
        ErrorKind::IOError
    );
    assert_eq!(
        value_of(call_builtin(&mut host, BuiltIn::TypeOf, vec![arg(text("x"))])),
        Object::Type(Type::String)
    );
    match value_of(call_builtin(
        &mut host,
        BuiltIn::RandInt,
        vec![arg(Object::Int(10)), arg(Object::Int(11))],
    )) {
        Object::Int(v) => assert_eq!(v, 10),
        other => panic!("unexpected {other:?}"),
    }
}

#[test]
fn print_line_joins_the_plain_forms() {
    let host = Floats;
    let args = vec![arg(text("a")), arg(Object::Int(1)), arg(Object::Null), arg(float(2.5))];
    assert_eq!(print_line(&args, &host), "a1null2.5\n");
    assert_eq!(print_line(&vec![], &host), "\n");
}

#[test]
fn gets_outcomes() {
    assert_eq!(value_of(gets_outcome(true, Some("  a b \n".to_string()))), text("a b"));
    assert_eq!(value_of(gets_outcome(true, Some(String::new()))), text(""));
    assert_eq!(error_of(gets_outcome(true, None)), ErrorKind::IOError);
    assert_eq!(error_of(gets_outcome(false, Some("a".to_string()))), ErrorKind::IOError);
}

#[test]
fn trimming() {
    assert_eq!(trim("  a b\t\n"), "a b");
    assert_eq!(trim("\u{a0}x\u{3000}"), "x");
    assert_eq!(trim("   "), "");
    assert_eq!(trim(""), "");
    assert_eq!(trim("x"), "x");
}

#[test]
fn integers_from_text() {
    assert_eq!(parse_int("0"), Some(0));
    assert_eq!(parse_int("-0"), Some(0));
    assert_eq!(parse_int("+15"), Some(15));
    assert_eq!(parse_int("0012"), Some(12));
    assert_eq!(parse_int("9223372036854775807"), Some(i64::MAX));
    assert_eq!(parse_int("-9223372036854775808"), Some(i64::MIN));
    assert_eq!(parse_int("9223372036854775808"), None);
    assert_eq!(parse_int("-9223372036854775809"), None);
    assert_eq!(parse_int(""), None);
    assert_eq!(parse_int("+"), None);
    assert_eq!(parse_int("--1"), None);
    assert_eq!(parse_int("1 "), None);
    assert_eq!(parse_int("1.5"), None);
    assert_eq!(parse_int("١"), None);
}

#[test]
fn text_helpers() {
    assert_eq!(int_to_string(0), "0");
    assert_eq!(int_to_string(10), "10");
    assert_eq!(int_to_string(-1), "-1");
    assert_eq!(int_to_string(i64::MAX), "9223372036854775807");
    assert_eq!(int_to_string(i64::MIN), "-9223372036854775808");
    assert_eq!(bool_to_string(true), "true");
    assert_eq!(bool_to_string(false), "false");
    assert_eq!(join("ab", "cd"), "abcd");
    assert_eq!(chars_of("añb"), vec!['a', 'ñ', 'b']);
    let chars = ['a', 'b', 'c', 'd'];
    assert_eq!(string_from_chars(&chars, 1, 3), "bc");
    assert_eq!(string_from_chars(&chars, 2, 2), "");
}

#[test]
fn error_slot_keeps_the_first_error() {
    let mut slot = RuntimeErrorHandler::new();
    assert!(!slot.has_error());
    assert_eq!(slot.get_error(), None);
    slot.set_name_error("first".to_string());
    slot.set_type_error("second".to_string());
    slot.set_error(ErrorKind::IOError, "third".to_string());
    let error = slot.get_error().unwrap();
    assert_eq!(error.kind, ErrorKind::NameError);
    assert_eq!(error.msg, "first");
    assert_eq!(error.to_string(), "[Name error] first");
    slot.clear();
    assert!(!slot.has_error());
    slot.set_sematic("'return' outside of function".to_string());
    assert_eq!(slot.get_error().unwrap().kind, ErrorKind::NameError);
}

#[test]
fn error_kind_labels() {
    assert_eq!(ErrorKind::NameError.to_string(), "[Name error]");
    assert_eq!(ErrorKind::TypeError.to_string(), "[Type Error]");
    assert_eq!(ErrorKind::ArgumentError.to_string(), "[Argument Error]");
    assert_eq!(ErrorKind::ValueError.to_string(), "[Value Error]");
    assert_eq!(ErrorKind::IOError.to_string(), "[IO Error]");
    assert_eq!(
        RuntimeError::new(ErrorKind::ValueError, "bad").to_string(),
        "[Value Error] bad"
    );
}

#[test]
fn low_word_keeps_what_fits() {
    assert_eq!(low_word(0), 0);
    assert_eq!(low_word(-1), -1);
    assert_eq!(low_word(i32::MAX as i64), i32::MAX);
    assert_eq!(low_word(i32::MIN as i64), i32::MIN);
    assert_eq!(low_word(i32::MAX as i64 + 1), i32::MIN);
    assert_eq!(low_word(4294967296 + 5), 5);
    assert_eq!(low_word(i64::MIN), 0);
}

#[test]
fn exit_codes() {
    assert_eq!(exit_code(&vec![]).unwrap(), 0);
    assert_eq!(exit_code(&vec![arg(Object::Int(3))]).unwrap(), 3);
    assert_eq!(exit_code(&vec![arg(Object::Int(-1))]).unwrap(), -1);
    assert_eq!(exit_code(&vec![arg(Object::Int(4294967296 + 7))]).unwrap(), 7);
    assert_eq!(exit_code(&vec![arg(text("a"))]).unwrap_err().kind, ErrorKind::ArgumentError);
    assert_eq!(
        exit_code(&vec![arg(Object::Int(1)), arg(Object::Int(2))]).unwrap_err().kind,
        ErrorKind::ArgumentError
    );
}

#[test]
fn as_float_operands() {
    assert_eq!(float_operand(&vec![arg(Object::Int(42))]).unwrap(), 42);
    assert_eq!(float_operand(&vec![arg(Object::Int(-2147483648))]).unwrap(), -2147483648);
    assert_eq!(float_operand(&vec![arg(Object::Int(2147483648))]).unwrap(), -2147483648);
    assert_eq!(float_operand(&vec![arg(text("a"))]).unwrap(), 0);
    assert_eq!(float_operand(&vec![]).unwrap_err().kind, ErrorKind::ArgumentError);
    assert_eq!(
        float_operand(&vec![arg(Object::Int(1)), arg(Object::Int(2))]).unwrap_err().kind,
        ErrorKind::ArgumentError
    );
}
