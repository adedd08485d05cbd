use filipe::context::{Context, ContextType};
use filipe::flstdlib::builtins;
use filipe::object::{BuiltIn, Object, ObjectInfo};
use filipe::type_system::Type;

fn empty() -> Context {
    Context::make_global(vec![])
}

fn int_of(ctx: &Context, name: &str) -> Option<i64> {
    match ctx.resolve(name) {
        Some(ObjectInfo { value: Object::Int(v), .. }) => Some(v),
        _ => None,
    }
}

#[test]
fn set_declares_once_per_scope() {
    let mut ctx = empty();
    assert!(ctx.set("x".to_string(), Type::Int, Object::Int(1), true));
    assert!(!ctx.set("x".to_string(), Type::Int, Object::Int(2), true));
    assert_eq!(int_of(&ctx, "x"), Some(1));
    assert!(ctx.has("x"));
    assert!(!ctx.has("y"));
}

#[test]
fn set_does_not_look_at_the_parents() {
    let mut ctx = empty();
    assert!(ctx.set("x".to_string(), Type::Int, Object::Int(1), true));
    ctx.enter(ContextType::IfElse);
    assert!(!ctx.has("x"));
    assert!(ctx.set("x".to_string(), Type::Int, Object::Int(2), true));
    assert_eq!(int_of(&ctx, "x"), Some(2));
    ctx.exit();
    assert_eq!(int_of(&ctx, "x"), Some(1));
}

#[test]
fn resolve_finds_the_nearest_scope() {
    let mut ctx = empty();
    ctx.set("a".to_string(), Type::Int, Object::Int(1), true);
    ctx.set("b".to_string(), Type::Int, Object::Int(10), true);
    ctx.enter(ContextType::Loop);
    ctx.set("a".to_string(), Type::Int, Object::Int(2), true);
    ctx.enter(ContextType::IfElse);
    ctx.set("a".to_string(), Type::Int, Object::Int(3), true);
    assert_eq!(int_of(&ctx, "a"), Some(3));
    assert_eq!(int_of(&ctx, "b"), Some(10));
    assert_eq!(ctx.resolve("c"), None);
    ctx.exit();
    assert_eq!(int_of(&ctx, "a"), Some(2));
    ctx.exit();
    assert_eq!(int_of(&ctx, "a"), Some(1));
}

#[test]
fn resolve_gives_a_snapshot() {
    let mut ctx = empty();
    ctx.set("a".to_string(), Type::Int, Object::Int(1), true);
    let before = ctx.resolve("a").unwrap();
    assert!(ctx.mutate("a".to_string(), Object::Int(2)));
    assert_eq!(before.value, Object::Int(1));
    assert_eq!(int_of(&ctx, "a"), Some(2));
}

#[test]
fn mutate_walks_the_chain() {
    let mut ctx = empty();
    ctx.set("a".to_string(), Type::Int, Object::Int(1), true);
    ctx.enter(ContextType::Loop);
    ctx.enter(ContextType::IfElse);
    assert!(ctx.mutate("a".to_string(), Object::Int(5)));
    assert!(!ctx.has("a"));
    ctx.exit();
    ctx.exit();
    assert_eq!(int_of(&ctx, "a"), Some(5));
}

#[test]
fn mutate_writes_the_nearest_binding_only() {
    let mut ctx = empty();
    ctx.set("a".to_string(), Type::Int, Object::Int(1), true);
    ctx.enter(ContextType::IfElse);
    ctx.set("a".to_string(), Type::Int, Object::Int(2), true);
    assert!(ctx.mutate("a".to_string(), Object::Int(9)));
    assert_eq!(int_of(&ctx, "a"), Some(9));
    ctx.exit();
    assert_eq!(int_of(&ctx, "a"), Some(1));
}

#[test]
fn mutate_fails_on_constants_and_unknown_names() {
    let mut ctx = empty();
    ctx.set("k".to_string(), Type::Int, Object::Int(1), false);
    assert!(!ctx.mutate("k".to_string(), Object::Int(2)));
    assert_eq!(int_of(&ctx, "k"), Some(1));
    assert!(!ctx.mutate("nothing".to_string(), Object::Int(2)));
    ctx.enter(ContextType::Function);
    assert!(!ctx.mutate("k".to_string(), Object::Int(3)));
    ctx.exit();
    assert_eq!(int_of(&ctx, "k"), Some(1));
}

#[test]
fn immutable_binding_shadowing_a_mutable_one_blocks_the_write() {
    let mut ctx = empty();
    ctx.set("a".to_string(), Type::Int, Object::Int(1), true);
    ctx.enter(ContextType::IfElse);
    ctx.set("a".to_string(), Type::Int, Object::Int(2), false);
    assert!(!ctx.mutate("a".to_string(), Object::Int(7)));
    ctx.exit();
    assert_eq!(int_of(&ctx, "a"), Some(1));
}

#[test]
fn scope_exit_restores_the_context() {
    let mut ctx = empty();
    ctx.set("a".to_string(), Type::Int, Object::Int(1), true);
    assert_eq!(ctx.depth(), 1);
    ctx.enter(ContextType::Loop);
    assert_eq!(ctx.depth(), 2);
    ctx.set("inner".to_string(), Type::Int, Object::Int(2), true);
    ctx.exit();
    assert_eq!(ctx.depth(), 1);
    assert_eq!(ctx.resolve("inner"), None);
    assert_eq!(int_of(&ctx, "a"), Some(1));
}

#[test]
fn the_global_scope_stays() {
    let mut ctx = empty();
    ctx.set("a".to_string(), Type::Int, Object::Int(1), true);
    ctx.exit();
    assert_eq!(ctx.depth(), 1);
    assert_eq!(int_of(&ctx, "a"), Some(1));
}

#[test]
fn in_context_type_walks_the_chain() {
    let mut ctx = empty();
    assert!(ctx.in_context_type(ContextType::Global));
    assert!(!ctx.in_context_type(ContextType::Function));
    ctx.enter(ContextType::Function);
    ctx.enter(ContextType::Loop);
    ctx.enter(ContextType::IfElse);
    assert!(ctx.in_context_type(ContextType::Function));
    assert!(ctx.in_context_type(ContextType::Loop));
    assert!(ctx.in_context_type(ContextType::IfElse));
    assert!(ctx.in_context_type(ContextType::Global));
    ctx.exit();
    ctx.exit();
    ctx.exit();
    assert!(!ctx.in_context_type(ContextType::Function));
}

#[test]
fn function_scope_hangs_under_the_global_scope() {
    let mut ctx = empty();
    ctx.set("g".to_string(), Type::Int, Object::Int(1), true);
    ctx.enter(ContextType::Loop);
    ctx.set("local".to_string(), Type::Int, Object::Int(2), true);
    ctx.enter_function();
    assert_eq!(int_of(&ctx, "g"), Some(1));
    assert_eq!(ctx.resolve("local"), None);
    assert!(ctx.in_context_type(ContextType::Function));
    assert!(!ctx.in_context_type(ContextType::Loop));
    ctx.exit();
    assert_eq!(int_of(&ctx, "local"), Some(2));
}

#[test]
fn make_from_opens_a_scope() {
    let mut parent = empty();
    parent.set("a".to_string(), Type::Int, Object::Int(1), true);
    let mut child = Context::make_from(parent, ContextType::IfElse);
    assert_eq!(child.depth(), 2);
    assert!(!child.has("a"));
    assert_eq!(int_of(&child, "a"), Some(1));
    assert!(child.in_context_type(ContextType::IfElse));
    child.exit();
    assert!(child.has("a"));
}

#[test]
fn make_global_keeps_the_first_entry_of_a_name() {
    let info = |v: i64| ObjectInfo { is_mut: true, type_: Type::Int, value: Object::Int(v) };
    let ctx = Context::make_global(vec![
        ("a".to_string(), info(1)),
        ("b".to_string(), info(2)),
        ("a".to_string(), info(3)),
    ]);
    assert_eq!(int_of(&ctx, "a"), Some(1));
    assert_eq!(int_of(&ctx, "b"), Some(2));
}

#[test]
fn global_scope_holds_the_standard_library() {
    let ctx = Context::make_global(builtins());
    for name in ["print", "exit", "typeof", "range", "len", "true", "false", "null", "math", "io", "random", "sys"] {
        let info = ctx.resolve(name).unwrap_or_else(|| panic!("{name} is missing"));
        assert!(!info.is_mut, "{name} must be a constant");
        assert_eq!(info.type_, info.value.ask_type());
    }
    assert_eq!(ctx.resolve("print").unwrap().value, Object::BuiltInFunction(BuiltIn::Print));
    assert_eq!(ctx.resolve("true").unwrap().value, Object::Boolean(true));
    assert_eq!(ctx.resolve("false").unwrap().value, Object::Boolean(false));
    assert_eq!(ctx.resolve("null").unwrap().value, Object::Null);
    assert_eq!(ctx.resolve("math").unwrap().type_, Type::Module);
}
