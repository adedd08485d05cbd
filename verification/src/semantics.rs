//! The meaning of programs: which outcomes the evaluation of a statement or
//! an expression can have from a state.
//!
//! A state is the context, the class of the first error, if there was one,
//! and what is left of the budget. An outcome is a value, or none, and the
//! state after the evaluation. Each relation here says whether `out` is an
//! outcome of a construct from the state `m`. Where the program decides,
//! there is one outcome. Where the host decides, as with floats, input and
//! random numbers, every outcome of the right kind is one, and the
//! evaluation goes on from it.

use crate::ast::{Expr, ExprType, Identifier, Infix, Literal, Postfix, Prefix, Stmt};
use crate::binding::{argument_fits, assigned_value, call_result, declarable, declared_binding};
use crate::context::{lookup, within_from, ContextType, ScopeView};
use crate::flstdlib::{field_of, fields_of_view};
use crate::natives::native_outcome;
use crate::object::{ObjectInfoView, ObjectView, ParamView, ReturnView};
use crate::operators::{infix_value, postfix_value, prefix_value, truthy};
use crate::runtime_error::ErrorKind;
use crate::type_system::{annotated_type, Type};
use vstd::prelude::*;

verus! {

/// The state of an evaluation.
pub struct Machine {
    /// The scopes of the context, the global scope first.
    pub scopes: Seq<ScopeView>,
    /// The class of the first error.
    pub error: Option<ErrorKind>,
    /// How many steps are left.
    pub fuel: nat,
}

/// An outcome of an evaluation: a value, or none, and the state after it.
pub struct Step {
    pub value: Option<ObjectView>,
    pub after: Machine,
}

impl Machine {
    /// The state after an error of the class `kind` is reported: the first
    /// error stays.
    pub open spec fn fail(self, kind: ErrorKind) -> Machine {
        if self.error is Some {
            self
        } else {
            Machine { error: Some(kind), ..self }
        }
    }

    /// The state with the context `scopes`.
    pub open spec fn with_scopes(self, scopes: Seq<ScopeView>) -> Machine {
        Machine { scopes, ..self }
    }

    /// The state after a step is taken off the budget. Where an error is
    /// held nothing changes; where nothing is left, that is an error.
    pub open spec fn spend(self) -> Machine {
        if self.error is Some {
            self
        } else if self.fuel == 0 {
            Machine { error: Some(ErrorKind::ValueError), ..self }
        } else {
            Machine { fuel: (self.fuel - 1) as nat, ..self }
        }
    }

    /// Whether a step can be taken off the budget.
    pub open spec fn can_spend(self) -> bool {
        self.error is None && self.fuel > 0
    }

    /// The outcome of an evaluation that ends here without a value.
    pub open spec fn stop(self) -> Step {
        Step { value: None, after: self }
    }

    /// The outcome of an evaluation that ends here with the value `value`.
    pub open spec fn give(self, value: ObjectView) -> Step {
        Step { value: Some(value), after: self }
    }

    /// The outcome of an evaluation that ends here with an error of the
    /// class `kind`.
    pub open spec fn raise(self, kind: ErrorKind) -> Step {
        self.fail(kind).stop()
    }

    /// The outcome of an evaluation that ends here with what `outcome`
    /// says: its value or its error.
    pub open spec fn settle(self, outcome: Result<ObjectView, ErrorKind>) -> Step {
        match outcome {
            Ok(value) => self.give(value),
            Err(kind) => self.raise(kind),
        }
    }
}

/// Names an outcome. It holds of every outcome; a proof names the outcome
/// that it means by it.
pub open spec fn reached(out: Step) -> bool {
    true
}

/// Names the end of the evaluation of the arguments of a call. It holds
/// of every such end; a proof names the one that it means by it.
pub open spec fn reached_with(got: Option<Seq<ObjectInfoView>>, after: Machine) -> bool {
    true
}

/// The context with a new binding in its current scope.
pub open spec fn declared(scopes: Seq<ScopeView>, name: Seq<char>, info: ObjectInfoView) -> Seq<
    ScopeView,
> {
    scopes.update(
        scopes.len() - 1,
        ScopeView { bindings: scopes.last().bindings.insert(name, info), ..scopes.last() },
    )
}

/// The context after `name` is given the value `value`: the nearest
/// binding of the name has it, where that binding is mutable.
pub open spec fn stored(scopes: Seq<ScopeView>, name: Seq<char>, value: ObjectView) -> Seq<
    ScopeView,
> {
    match lookup(scopes, name) {
        Some((k, info)) => if info.is_mut {
            scopes.update(
                k,
                ScopeView {
                    bindings: scopes[k].bindings.insert(name, ObjectInfoView { value, ..info }),
                    ..scopes[k]
                },
            )
        } else {
            scopes
        },
        None => scopes,
    }
}

/// The context with a new, empty scope of the kind `kind` under its
/// current scope.
pub open spec fn opened(scopes: Seq<ScopeView>, kind: ContextType) -> Seq<ScopeView> {
    scopes.push(ScopeView { kind, bindings: Map::empty(), parent: Some(scopes.len() - 1) })
}

/// The context with a new, empty function scope under its global scope.
pub open spec fn opened_function(scopes: Seq<ScopeView>) -> Seq<ScopeView> {
    scopes.push(
        ScopeView { kind: ContextType::Function, bindings: Map::empty(), parent: Some(0) },
    )
}

/// The context without its current scope; the global scope stays.
pub open spec fn closed(scopes: Seq<ScopeView>) -> Seq<ScopeView> {
    if scopes.len() > 1 {
        scopes.drop_last()
    } else {
        scopes
    }
}

/// The outcome `inside` of what ran in a scope of its own, once that scope
/// is left.
pub open spec fn leave(inside: Step) -> Step {
    Step { value: inside.value, after: inside.after.with_scopes(closed(inside.after.scopes)) }
}

/// The state after `name` is declared in the current scope; a name error
/// where the scope declares it already.
pub open spec fn declare(m: Machine, name: Seq<char>, info: ObjectInfoView) -> Machine {
    if m.scopes.last().bindings.contains_key(name) {
        m.fail(ErrorKind::NameError)
    } else {
        m.with_scopes(declared(m.scopes, name, info))
    }
}

/// A variable with the value `value` and the declared type `type_`.
pub open spec fn variable(value: ObjectView, type_: Type) -> ObjectInfoView {
    ObjectInfoView { is_mut: true, type_, value }
}

/// An argument of a call: the value `value`, bound with its own type.
pub open spec fn argument(value: ObjectView) -> ObjectInfoView {
    ObjectInfoView { is_mut: true, type_: value.type_of(), value }
}

/// The receiver of a method as its first argument.
pub open spec fn receiver(value: ObjectView) -> ObjectInfoView {
    ObjectInfoView { is_mut: false, type_: value.type_of(), value }
}

/// What a native function's answer means for the evaluation: its value,
/// or the class of its error.
pub open spec fn answer(reply: ReturnView) -> Result<ObjectView, ErrorKind> {
    match reply {
        ReturnView::Object(value) => Ok(value),
        ReturnView::Error(error) => Err(error.kind),
    }
}

/// The context after the arguments `args` are bound to the parameters
/// `params`, from the one number `i` on, in the current scope: each
/// argument must fit its parameter, and no parameter is named twice.
pub open spec fn bind_params(
    scopes: Seq<ScopeView>,
    params: Seq<ParamView>,
    args: Seq<ObjectInfoView>,
    i: nat,
) -> Result<Seq<ScopeView>, ErrorKind>
    decreases params.len() - i,
{
    if i >= params.len() || i >= args.len() {
        Ok(scopes)
    } else if !argument_fits(params[i as int].type_, args[i as int]) {
        Err(ErrorKind::TypeError)
    } else if scopes.last().bindings.contains_key(params[i as int].name) {
        Err(ErrorKind::NameError)
    } else {
        bind_params(
            declared(
                scopes,
                params[i as int].name,
                variable(args[i as int].value, args[i as int].type_),
            ),
            params,
            args,
            i + 1,
        )
    }
}

/// The integer that the cursor of a loop holds, if it is a mutable integer
/// variable.
pub open spec fn cursor_value(scopes: Seq<ScopeView>, cursor: Seq<char>) -> Option<i64> {
    match lookup(scopes, cursor) {
        Some((_, info)) => if info.is_mut && info.type_ == Type::Int {
            match info.value {
                ObjectView::Int(v) => Some(v),
                _ => None,
            }
        } else {
            None
        },
        None => None,
    }
}

/// Whether `out` is an outcome of the statement `stmt` from the state `m`.
/// A statement costs one step.
#[verifier::opaque]
pub open spec fn stmt_step(m: Machine, stmt: Stmt, out: Step) -> bool
    decreases m.fuel, 0nat, 0nat,
{
    if !m.can_spend() {
        out == m.spend().stop()
    } else {
        let m1 = m.spend();
        match stmt {
            Stmt::Let(name, type_, init) => let_step(m1, name.0@, type_, init, out),
            Stmt::Func(name, params, body, ret) => out == func_step(
                m1,
                name.0@,
                params@,
                *body,
                ret,
            ),
            Stmt::Return(value) => return_step(m1, value, out),
            Stmt::Expr(expr) => expr_step(m1, expr, out),
            Stmt::If { condition, consequence, alternative } => if_step(
                m1,
                condition,
                consequence@,
                alternative,
                out,
            ),
            Stmt::ForLoop { cursor, iterable, block } => for_step(
                m1,
                cursor@,
                iterable,
                block@,
                out,
            ),
        }
    }
}

/// The function value that a function definition makes of its
/// parameters, its body and its return type.
pub open spec fn function_of(
    params: Seq<(Identifier, ExprType)>,
    body: Vec<Stmt>,
    ret: ExprType,
) -> ObjectView {
    ObjectView::UserDefinedFunction {
        params: Seq::new(
            params.len(),
            |i: int| ParamView { name: params[i].0.0@, type_: annotated_type(params[i].1) },
        ),
        body,
        return_type: annotated_type(ret),
    }
}

/// The outcome of a function definition: its name is bound, as a constant
/// of the current scope, to the function; a name that the scope declares
/// already is a name error.
pub open spec fn func_step(
    m: Machine,
    name: Seq<char>,
    params: Seq<(Identifier, ExprType)>,
    body: Vec<Stmt>,
    ret: ExprType,
) -> Step {
    declare(
        m,
        name,
        ObjectInfoView {
            is_mut: false,
            type_: Type::Function,
            value: function_of(params, body, ret),
        },
    ).stop()
}

/// The outcome of a declaration once its initializer has the outcome
/// `init`: the name is bound as the rules of declarations say; an
/// initializer without a value binds nothing.
pub open spec fn let_bound(init: Step, name: Seq<char>, declared_type: Option<Type>) -> Step {
    match init.value {
        Some(v) => match declared_binding(declared_type, Some(v)) {
            Ok((value, t)) => declare(init.after, name, variable(value, t)).stop(),
            Err(kind) => init.after.raise(kind),
        },
        None => init.after.stop(),
    }
}

/// Whether `out` is an outcome of a declaration: a name that the current
/// scope declares already is a name error; else the initializer is
/// evaluated, if there is one, and the name is bound as the rules of
/// declarations say.
#[verifier::opaque]
pub open spec fn let_step(
    m: Machine,
    name: Seq<char>,
    type_: Option<ExprType>,
    init: Option<Expr>,
    out: Step,
) -> bool
    decreases m.fuel, 2nat, 0nat,
{
    if m.scopes.last().bindings.contains_key(name) {
        out == m.raise(ErrorKind::NameError)
    } else {
        let declared_type = match type_ {
            Some(annotation) => Some(annotated_type(annotation)),
            None => None,
        };
        if declared_type is Some && !declarable(declared_type->Some_0) {
            out == m.raise(ErrorKind::TypeError)
        } else {
            match init {
                None => out == match declared_binding(declared_type, None) {
                    Ok((value, t)) => declare(m, name, variable(value, t)).stop(),
                    Err(kind) => m.raise(kind),
                },
                Some(expr) => exists|s: Step| #[trigger]
                    reached(s)
                    && expr_step(m, expr, s)
                    && out == let_bound(s, name, declared_type),
            }
        }
    }
}

/// Whether `out` is an outcome of a `return` statement: inside a function,
/// the value of the expression, or null without one, on its way out;
/// outside of any function a name error.
#[verifier::opaque]
pub open spec fn return_step(m: Machine, value: Option<Expr>, out: Step) -> bool
    decreases m.fuel, 1nat, 0nat,
{
    if !within_from(m.scopes, m.scopes.len() - 1, ContextType::Function) {
        out == m.raise(ErrorKind::NameError)
    } else {
        match value {
            None => out == m.give(ObjectView::RetVal(Box::new(ObjectView::Null))),
            Some(expr) => exists|s: Step| #[trigger]
                reached(s)
                && expr_step(m, expr, s)
                && out == match s.value {
                    Some(v) => s.after.give(ObjectView::RetVal(Box::new(v))),
                    None => s.after.stop(),
                },
        }
    }
}

/// Whether `out` is an outcome of the statements of a block from the one
/// number `i` on: the first value on its way out of a function ends the
/// block and is its value, an error ends it without one, and at its end the
/// value is null.
#[verifier::opaque]
pub open spec fn block_step(m: Machine, block: Seq<Stmt>, i: nat, out: Step) -> bool
    decreases m.fuel, 1nat, block.len() - i,
{
    if i >= block.len() {
        out == if m.error is Some {
            m.stop()
        } else {
            m.give(ObjectView::Null)
        }
    } else {
        exists|s: Step| #[trigger]
            reached(s)
            && stmt_step(m, block[i as int], s)
            && s.after.fuel <= m.fuel
            && match s.value {
                Some(ObjectView::RetVal(v)) => out == s.after.give(ObjectView::RetVal(v)),
                _ => if s.after.error is Some {
                    out == s.after.stop()
                } else {
                    block_step(s.after, block, i + 1, out)
                },
            }
    }
}

/// Whether `out` is an outcome of one of the branches of an `if` statement
/// whose condition has the value `c`, from the state `inside`: of the
/// consequence where the condition holds, else of the alternative where
/// there is one.
#[verifier::opaque]
pub open spec fn branch_step(
    inside: Machine,
    c: ObjectView,
    consequence: Seq<Stmt>,
    alternative: Option<Vec<Stmt>>,
    out: Step,
) -> bool
    decreases inside.fuel, 2nat, 0nat,
{
    if truthy(c) {
        block_step(inside, consequence, 0, out)
    } else {
        match alternative {
            Some(block) => block_step(inside, block@, 0, out),
            None => out == inside.stop(),
        }
    }
}

/// Whether `out` is an outcome of an `if` statement: the condition is
/// evaluated; then a branch runs in a new scope, which is left after it.
#[verifier::opaque]
pub open spec fn if_step(
    m: Machine,
    condition: Expr,
    consequence: Seq<Stmt>,
    alternative: Option<Vec<Stmt>>,
    out: Step,
) -> bool
    decreases m.fuel, 3nat, 0nat,
{
    exists|s: Step| #[trigger]
        reached(s)
        && expr_step(m, condition, s)
        && s.after.fuel <= m.fuel
        && match s.value {
            Some(c) => exists|b: Step| #[trigger] reached(b) && branch_step(
                    s.after.with_scopes(opened(s.after.scopes, ContextType::IfElse)),
                    c,
                    consequence,
                    alternative,
                    b,
                ) && out == leave(b),
            None => out == s.after.stop(),
        }
}

/// Whether `out` is an outcome of a loop over the range from `start` to
/// `end` by `step`, from the state `m`: in a new loop scope the cursor is
/// declared with the start of the range and the rounds of the loop run;
/// then the scope is left.
#[verifier::opaque]
pub open spec fn loop_step(
    m: Machine,
    cursor: Seq<char>,
    start: i64,
    end: i64,
    step: i64,
    block: Seq<Stmt>,
    out: Step,
) -> bool
    decreases m.fuel, 3nat, 0nat,
{
    exists|b: Step| #[trigger] reached(b) && rounds_step(
            m.with_scopes(
                declared(
                    opened(m.scopes, ContextType::Loop),
                    cursor,
                    variable(ObjectView::Int(start), Type::Int),
                ),
            ),
            cursor,
            end,
            step,
            block,
            b,
        ) && out == leave(b)
}

/// Whether `out` is an outcome of a `for` statement: the iterable is
/// evaluated and must be a range, over which the loop runs.
#[verifier::opaque]
pub open spec fn for_step(
    m: Machine,
    cursor: Seq<char>,
    iterable: Expr,
    block: Seq<Stmt>,
    out: Step,
) -> bool
    decreases m.fuel, 4nat, 0nat,
{
    exists|s: Step| #[trigger]
        reached(s)
        && expr_step(m, iterable, s)
        && s.after.fuel <= m.fuel
        && match s.value {
            Some(ObjectView::Range { start, end, step }) => loop_step(
                s.after,
                cursor,
                start,
                end,
                step,
                block,
                out,
            ),
            Some(_) => out == s.after.raise(ErrorKind::TypeError),
            None => out == s.after.stop(),
        }
}

/// Whether `out` is an outcome of the rounds of a loop. While the cursor
/// is below `end`, a round costs one step and runs the block; a value on
/// its way out of a function ends the loop and is its value, an error ends
/// it; else `step` is added to the cursor, wrapping round.
#[verifier::opaque]
pub open spec fn rounds_step(
    m: Machine,
    cursor: Seq<char>,
    end: i64,
    step: i64,
    block: Seq<Stmt>,
    out: Step,
) -> bool
    decreases m.fuel, 2nat, 0nat,
{
    match cursor_value(m.scopes, cursor) {
        None => out == m.stop(),
        Some(current) => if !(current < end) {
            out == m.stop()
        } else if !m.can_spend() {
            out == m.spend().stop()
        } else {
            exists|s: Step| #[trigger]
                reached(s)
                && block_step(m.spend(), block, 0, s)
                && s.after.fuel < m.fuel
                && if s.after.error is Some {
                    out == s.after.stop()
                } else {
                    match s.value {
                        Some(ObjectView::RetVal(v)) => out == s.after.give(ObjectView::RetVal(v)),
                        _ => match cursor_value(s.after.scopes, cursor) {
                            None => out == s.after.stop(),
                            Some(now) => rounds_step(
                                s.after.with_scopes(
                                    stored(
                                        s.after.scopes,
                                        cursor,
                                        ObjectView::Int(now.wrapping_add(step)),
                                    ),
                                ),
                                cursor,
                                end,
                                step,
                                block,
                                out,
                            ),
                        },
                    }
                }
        },
    }
}

/// Whether `out` is an outcome of the expression `expr` from the state
/// `m`. An expression costs one step.
#[verifier::opaque]
pub open spec fn expr_step(m: Machine, expr: Expr, out: Step) -> bool
    decreases m.fuel, 0nat, 0nat,
{
    if !m.can_spend() {
        out == m.spend().stop()
    } else {
        let m1 = m.spend();
        match expr {
            Expr::Literal(literal) => literal_step(m1, literal, out),
            Expr::Identifier(name) => out == name_step(m1, name.0@),
            Expr::Call(func, args) => call_expr_step(m1, *func, args@, out),
            Expr::Infix(lhs, infix, rhs) => infix_step(m1, *lhs, infix, *rhs, out),
            Expr::Prefix(prefix, operand) => prefix_step(m1, prefix, *operand, out),
            Expr::Postfix(operand, postfix) => postfix_step(m1, *operand, postfix, out),
            Expr::Assign(name, value) => assign_step(m1, name.0@, *value, out),
            Expr::FieldAcc(src, target) => field_access_step(m1, *src, *target, out),
        }
    }
}

/// The outcome of a name: the value of the binding it resolves to; a name
/// error where it resolves to none.
pub open spec fn name_step(m: Machine, name: Seq<char>) -> Step {
    match lookup(m.scopes, name) {
        Some((_, info)) => m.give(info.value),
        None => m.raise(ErrorKind::NameError),
    }
}

/// Whether `out` is an outcome of a literal. The value of a float literal
/// is some float: the host reads it.
#[verifier::opaque]
pub open spec fn literal_step(m: Machine, literal: Literal, out: Step) -> bool
    decreases m.fuel, 2nat, 0nat,
{
    match literal {
        Literal::String(val) => out == m.give(ObjectView::String(val@)),
        Literal::Boolean(val) => out == m.give(ObjectView::Boolean(val)),
        Literal::Null => out == m.give(ObjectView::Null),
        Literal::Int(val) => out == m.give(ObjectView::Int(val)),
        Literal::Float(_) => out.after == m && out.value is Some && out.value->Some_0 is Float,
        Literal::Array(items) => array_step(m, items@, out),
    }
}

/// Whether `out` is an outcome of an array literal: without elements an
/// empty array of unknown element type; else the elements are evaluated
/// from the left, the type of the first is the element type, and another
/// type among them is a type error.
#[verifier::opaque]
pub open spec fn array_step(m: Machine, items: Seq<Expr>, out: Step) -> bool
    decreases m.fuel, 1nat, items.len() + 1,
{
    if items.len() == 0 {
        out == m.give(ObjectView::Array { inner: Seq::empty(), items_type: None })
    } else {
        exists|s: Step| #[trigger]
            reached(s)
            && expr_step(m, items[0], s)
            && s.after.fuel <= m.fuel
            && match s.value {
                Some(first) => items_step(s.after, items, 1, first.type_of(), seq![first], out),
                None => out == s.after.stop(),
            }
    }
}

/// Whether `out` is an outcome of an array literal whose first `i`
/// elements are evaluated to `acc`, of the type `first`.
#[verifier::opaque]
pub open spec fn items_step(
    m: Machine,
    items: Seq<Expr>,
    i: nat,
    first: Type,
    acc: Seq<ObjectView>,
    out: Step,
) -> bool
    decreases m.fuel, 1nat, items.len() - i,
{
    if i >= items.len() {
        out == if m.error is Some {
            m.stop()
        } else {
            m.give(ObjectView::Array { inner: acc, items_type: Some(first) })
        }
    } else {
        exists|s: Step| #[trigger]
            reached(s)
            && expr_step(m, items[i as int], s)
            && s.after.fuel <= m.fuel
            && match s.value {
                Some(item) => if item.type_of() != first {
                    out == s.after.raise(ErrorKind::TypeError)
                } else {
                    items_step(s.after, items, i + 1, first, acc.push(item), out)
                },
                None => out == s.after.stop(),
            }
    }
}

/// Whether `out` is an outcome of an infix operator on two operands with
/// the outcomes `l` and `r`. Without floats the operator decides. On two
/// floats the host computes: a comparison gives some boolean, any other
/// operator some float.
pub open spec fn infix_applied(l: Step, infix: Infix, r: Step, out: Step) -> bool {
    match (l.value, r.value) {
        (Some(a), Some(b)) => if r.after.error is Some {
            out == r.after.stop()
        } else if a is Float && b is Float {
            out.after == r.after && out.value is Some && if infix.compares() {
                out.value->Some_0 is Boolean
            } else {
                out.value->Some_0 is Float
            }
        } else {
            out == r.after.settle(infix_value(a, infix, b))
        },
        _ => out == r.after.stop(),
    }
}

/// Whether `out` is an outcome of an infix expression: both operands are
/// evaluated, from the left, then the operator is applied.
#[verifier::opaque]
pub open spec fn infix_step(m: Machine, lhs: Expr, infix: Infix, rhs: Expr, out: Step) -> bool
    decreases m.fuel, 1nat, 0nat,
{
    exists|l: Step| #[trigger]
        reached(l)
        && expr_step(m, lhs, l)
        && l.after.fuel <= m.fuel
        && exists|r: Step| #[trigger] reached(r)
        && expr_step(l.after, rhs, r)
        && infix_applied(l, infix, r, out)
}

/// Whether `out` is an outcome of a prefix expression.
#[verifier::opaque]
pub open spec fn prefix_step(m: Machine, prefix: Prefix, operand: Expr, out: Step) -> bool
    decreases m.fuel, 1nat, 0nat,
{
    exists|s: Step| #[trigger] reached(s) && expr_step(m, operand, s) && out == match s.value {
            Some(v) => s.after.settle(prefix_value(prefix, v)),
            None => s.after.stop(),
        }
}

/// Whether `out` is an outcome of a postfix expression. The operand keeps
/// its value.
#[verifier::opaque]
pub open spec fn postfix_step(m: Machine, operand: Expr, postfix: Postfix, out: Step) -> bool
    decreases m.fuel, 1nat, 0nat,
{
    exists|s: Step| #[trigger] reached(s) && expr_step(m, operand, s) && out == match s.value {
            Some(v) => s.after.settle(postfix_value(v, postfix)),
            None => s.after.stop(),
        }
}

/// The outcome of an assignment to `name` once the value has the outcome
/// `s`: the value must be of the declared type of the binding, which then
/// holds it. The assignment itself has no value.
pub open spec fn assign_bound(s: Step, name: Seq<char>) -> Step {
    match s.value {
        Some(v) => match lookup(s.after.scopes, name) {
            None => s.after.stop(),
            Some((_, target)) => if target.type_ == Type::Array(None) {
                s.after.stop()
            } else {
                match assigned_value(target.type_, v) {
                    Ok(new_value) => s.after.with_scopes(
                        stored(s.after.scopes, name, new_value),
                    ).stop(),
                    Err(kind) => s.after.raise(kind),
                }
            },
        },
        None => s.after.stop(),
    }
}

/// Whether `out` is an outcome of an assignment: the name must resolve to
/// a mutable binding, else it is a name error; then the value is evaluated
/// and stored.
#[verifier::opaque]
pub open spec fn assign_step(m: Machine, name: Seq<char>, value: Expr, out: Step) -> bool
    decreases m.fuel, 1nat, 0nat,
{
    match lookup(m.scopes, name) {
        None => out == m.raise(ErrorKind::NameError),
        Some((_, old_info)) => if !old_info.is_mut {
            out == m.raise(ErrorKind::NameError)
        } else {
            exists|s: Step| #[trigger]
                reached(s)
                && expr_step(m, value, s)
                && out == assign_bound(s, name)
        },
    }
}

/// Whether the evaluation of the arguments of a call, from the one number
/// `i` on, after `acc`, can end in the state `after` with the bindings
/// `got`: each argument is evaluated, from the left, and bound with its own
/// type. An argument without a value, and an error, end the call without
/// bindings.
#[verifier::opaque]
pub open spec fn args_step(
    m: Machine,
    args: Seq<Expr>,
    i: nat,
    acc: Seq<ObjectInfoView>,
    got: Option<Seq<ObjectInfoView>>,
    after: Machine,
) -> bool
    decreases m.fuel, 1nat, args.len() - i,
{
    if i >= args.len() {
        after == m && got == if m.error is Some {
            None
        } else {
            Some(acc)
        }
    } else {
        exists|s: Step| #[trigger]
            reached(s)
            && expr_step(m, args[i as int], s)
            && s.after.fuel <= m.fuel
            && match s.value {
                Some(v) => args_step(s.after, args, i + 1, acc.push(argument(v)), got, after),
                None => got is None && after == s.after,
            }
    }
}

/// Whether `out` is an outcome of a call of a name: the name must resolve
/// to something, else it is a name error; what it resolves to is called.
#[verifier::opaque]
pub open spec fn call_expr_step(m: Machine, func: Expr, args: Seq<Expr>, out: Step) -> bool
    decreases m.fuel, 5nat, 0nat,
{
    match func {
        Expr::Identifier(name) => match lookup(m.scopes, name.0@) {
            Some((_, info)) => call_step(m, info.value, args, Seq::empty(), out),
            None => out == m.raise(ErrorKind::NameError),
        },
        _ => out == m.raise(ErrorKind::NameError),
    }
}

/// Whether `out` is an outcome of `callee` applied to the arguments `args`
/// from the state `m`. A native function answers as
/// [`native_outcome`] says, and where that leaves the answer to the host,
/// every such answer gives an outcome. A user-defined function is called
/// as [`function_step`] says. Anything else cannot be called.
#[verifier::opaque]
pub open spec fn applied_step(m: Machine, callee: ObjectView, args: Seq<ObjectInfoView>, out: Step) -> bool
    decreases m.fuel, 3nat, 0nat,
{
    match callee {
        ObjectView::BuiltInFunction(which) => exists|reply: ReturnView| #[trigger]
            native_outcome(which, args, reply) && out == m.settle(answer(reply)),
        ObjectView::UserDefinedFunction { params, body, return_type } => function_step(
            m,
            params,
            body@,
            return_type,
            args,
            out,
        ),
        _ => out == m.raise(ErrorKind::TypeError),
    }
}

/// Whether `out` is an outcome of a call of `callee` on the arguments
/// `extra`, which are evaluated already, followed by the values of `args`.
#[verifier::opaque]
pub open spec fn call_step(
    m: Machine,
    callee: ObjectView,
    args: Seq<Expr>,
    extra: Seq<ObjectInfoView>,
    out: Step,
) -> bool
    decreases m.fuel, 4nat, 0nat,
{
    exists|got: Option<Seq<ObjectInfoView>>, m1: Machine| #[trigger] reached_with(got, m1) && args_step(m, args, 0, Seq::empty(), got, m1) && m1.fuel <= m.fuel && match got {
            Some(evaluated) => applied_step(m1, callee, extra + evaluated, out),
            None => out == m1.stop(),
        }
}

/// The outcome of a call whose body had the outcome `body` in its scope:
/// the scope is left; what was returned must be of the declared return
/// type.
pub open spec fn returned(body: Step, return_type: Type) -> Step {
    let after = leave(body).after;
    if after.error is Some {
        after.stop()
    } else {
        after.settle(call_result(return_type, body.value))
    }
}

/// Whether `out` is an outcome of a call of a user-defined function on
/// arguments that are evaluated already. It takes as many arguments as it
/// has parameters, else it is a type error. In a new function scope under
/// the global scope the arguments are bound to the parameters and the body
/// runs.
#[verifier::opaque]
pub open spec fn function_step(
    m: Machine,
    params: Seq<ParamView>,
    body: Seq<Stmt>,
    return_type: Type,
    args: Seq<ObjectInfoView>,
    out: Step,
) -> bool
    decreases m.fuel, 2nat, 0nat,
{
    if params.len() != args.len() {
        out == m.raise(ErrorKind::TypeError)
    } else {
        match bind_params(opened_function(m.scopes), params, args, 0) {
            Err(kind) => out == m.raise(kind),
            Ok(scopes) => exists|b: Step| #[trigger]
                reached(b)
                && block_step(m.with_scopes(scopes), body, 0, b)
                && out == returned(b, return_type),
        }
    }
}

/// Whether `out` is an outcome of the target of a field access on a
/// receiver with the fields `fields`: the field that the target names, or
/// what the field that it calls returns for `extra` and the arguments. A
/// field that is not there is a name error.
#[verifier::opaque]
pub open spec fn target_step(
    m: Machine,
    fields: Seq<(Seq<char>, ObjectView)>,
    target: Expr,
    extra: Seq<ObjectInfoView>,
    out: Step,
) -> bool
    decreases m.fuel, 5nat, 0nat,
{
    match target {
        Expr::Call(callee, args) => match *callee {
            Expr::Identifier(name) => match field_of(fields, name.0@) {
                Some(method) => call_step(m, method, args@, extra, out),
                None => out == m.raise(ErrorKind::NameError),
            },
            _ => out == m.raise(ErrorKind::NameError),
        },
        Expr::Identifier(name) => out == match field_of(fields, name.0@) {
            Some(field) => m.give(field),
            None => m.raise(ErrorKind::NameError),
        },
        _ => out == m.raise(ErrorKind::NameError),
    }
}

/// The arguments that a method gets before those of the call: the
/// receiver, unless that is a module.
pub open spec fn method_arguments(object: ObjectView) -> Seq<ObjectInfoView> {
    if object is Module {
        Seq::empty()
    } else {
        seq![receiver(object)]
    }
}

/// Whether `out` is an outcome of a field access: the receiver is
/// evaluated and must be a value with fields, else it is a type error; then
/// the target is evaluated on its fields.
#[verifier::opaque]
pub open spec fn field_access_step(m: Machine, src: Expr, target: Expr, out: Step) -> bool
    decreases m.fuel, 6nat, 0nat,
{
    exists|s: Step| #[trigger]
        reached(s)
        && expr_step(m, src, s)
        && s.after.fuel <= m.fuel
        && match s.value {
            Some(object) => match fields_of_view(object) {
                None => out == s.after.raise(ErrorKind::TypeError),
                Some(fields) => target_step(s.after, fields, target, method_arguments(object), out),
            },
            None => out == s.after.stop(),
        }
}

/// Whether `out` is an outcome of the statements of a program from the one
/// number `i` on, where `last` is the value of the statement before: the
/// first error ends the program without a value; at its end the value is
/// that of the last statement.
#[verifier::opaque]
pub open spec fn program_step(
    m: Machine,
    program: Seq<Stmt>,
    i: nat,
    last: Option<ObjectView>,
    out: Step,
) -> bool
    decreases program.len() - i,
{
    if i >= program.len() {
        out == (Step { value: last, after: m })
    } else {
        exists|s: Step| #[trigger]
            reached(s)
            && stmt_step(m, program[i as int], s)
            && if s.after.error is Some {
                out == s.after.stop()
            } else {
                program_step(s.after, program, i + 1, s.value, out)
            }
    }
}

/// A `return` outside of any function has one outcome, an error of the
/// class of name errors, whatever it is to return: the statement costs its
/// step and has no value.
pub proof fn law_return_outside_function(m: Machine, value: Option<Expr>, out: Step)
    requires
        m.can_spend(),
        !within_from(m.scopes, m.scopes.len() - 1, ContextType::Function),
        stmt_step(m, Stmt::Return(value), out),
    ensures
        out == m.spend().raise(ErrorKind::NameError),
        out.after.error == Some(ErrorKind::NameError),
        out.value is None,
{
    reveal_with_fuel(stmt_step, 1);
    reveal_with_fuel(return_step, 1);
}

/// Once an error is held, a statement and an expression have one outcome:
/// nothing changes, and there is no value.
pub proof fn law_error_stops(m: Machine, stmt: Stmt, expr: Expr, out: Step)
    requires
        m.error is Some,
    ensures
        stmt_step(m, stmt, out) <==> out == m.stop(),
        expr_step(m, expr, out) <==> out == m.stop(),
{
    reveal_with_fuel(stmt_step, 1);
    reveal_with_fuel(expr_step, 1);
}

/// An operator on two floats has an outcome of the right kind, whatever
/// the host computes: where both operands have a float and no error is
/// held, every outcome has a value, a boolean for a comparison and a float
/// for any other operator, and leaves the state as the operands left it.
pub proof fn law_float_operator(l: Step, infix: Infix, r: Step, out: Step)
    requires
        l.value is Some && l.value->Some_0 is Float,
        r.value is Some && r.value->Some_0 is Float,
        r.after.error is None,
        infix_applied(l, infix, r, out),
    ensures
        out.after == r.after,
        out.value is Some,
        infix.compares() ==> out.value->Some_0 is Boolean,
        !infix.compares() ==> out.value->Some_0 is Float,
{
}

/// A random integer is within its bounds, whatever is drawn: every outcome
/// of `random.randint` applied to two integers, the first below the second,
/// has an integer from the first up to, not including, the second, and
/// leaves the state as it was.
pub proof fn law_random_within_bounds(m: Machine, begin: i64, end: i64, out: Step)
    requires
        begin < end,
        applied_step(
            m,
            ObjectView::BuiltInFunction(crate::object::BuiltIn::RandInt),
            seq![argument(ObjectView::Int(begin)), argument(ObjectView::Int(end))],
            out,
        ),
    ensures
        out.after == m,
        out.value is Some,
        out.value->Some_0 is Int,
        begin <= out.value->Some_0->Int_0 < end,
{
    reveal_with_fuel(applied_step, 1);
}

/// A declaration with a float literal declares the name as a float,
/// whatever float the host reads: from a state that can pay for the
/// statement and the literal and whose current scope does not declare the
/// name, every outcome binds the name, with the type float, to some float,
/// and holds no error.
pub proof fn law_float_declaration(
    m: Machine,
    name: Identifier,
    annotation: Option<ExprType>,
    text: String,
    out: Step,
)
    requires
        m.error is None,
        m.fuel >= 2,
        m.scopes.len() >= 1,
        !m.scopes.last().bindings.contains_key(name.0@),
        annotation is None || annotation == Some(ExprType::Float),
        stmt_step(m, Stmt::Let(name, annotation, Some(Expr::Literal(Literal::Float(text)))), out),
    ensures
        out.value is None,
        out.after.error is None,
        out.after.fuel == m.fuel - 2,
        out.after.scopes.len() == m.scopes.len(),
        out.after.scopes.last().bindings.contains_key(name.0@),
        out.after.scopes.last().bindings[name.0@].type_ == Type::Float,
        out.after.scopes.last().bindings[name.0@].value is Float,
{
    reveal_with_fuel(stmt_step, 1);
    reveal_with_fuel(let_step, 1);
    reveal_with_fuel(expr_step, 1);
    reveal_with_fuel(literal_step, 1);
}

} // verus!
