//! What the operators compute on values that are already evaluated, and
//! what a declaration, an assignment, a call and a return accept.

use crate::ast::{Infix, Postfix, Prefix};
use crate::host::Host;
use crate::object::{Object, ObjectView};
use crate::runtime_error::{ErrorKind, RuntimeError};
use crate::text::{join, owned};
use crate::type_system::Type;
use vstd::prelude::*;

verus! {

/// The sign bit of a double.
pub const SIGN_BIT: u64 = 0x8000_0000_0000_0000;

/// Whether a condition holds of the value: null, `false`, the integer zero
/// and the floats `0.0` and `-0.0` do not count as true, everything else
/// does.
pub open spec fn truthy(object: ObjectView) -> bool {
    match object {
        ObjectView::Null | ObjectView::Boolean(false) => false,
        ObjectView::Int(val) => val != 0,
        ObjectView::Float(bits) => bits != 0 && bits != SIGN_BIT,
        _ => true,
    }
}

/// Whether a condition holds of the value.
pub fn is_truthy(object: &Object) -> (r: bool)
    ensures
        r == truthy(object@),
{
    match object {
        Object::Null | Object::Boolean(false) => false,
        Object::Int(val) => *val != 0,
        Object::Float(bits) => *bits != 0 && *bits != SIGN_BIT,
        _ => true,
    }
}

/// What an infix operator gives on two integers. Sums, differences and
/// products wrap round; a division or a remainder that has no value in the
/// integers, as by zero, is a bad value.
pub open spec fn int_infix(lhs: i64, infix: Infix, rhs: i64) -> Result<ObjectView, ErrorKind> {
    match infix {
        Infix::Plus => Ok(ObjectView::Int(lhs.wrapping_add(rhs))),
        Infix::Minus => Ok(ObjectView::Int(lhs.wrapping_sub(rhs))),
        Infix::Multiply => Ok(ObjectView::Int(lhs.wrapping_mul(rhs))),
        Infix::Devide => match lhs.checked_div(rhs) {
            Some(v) => Ok(ObjectView::Int(v)),
            None => Err(ErrorKind::ValueError),
        },
        Infix::Remainder => match lhs.checked_rem(rhs) {
            Some(v) => Ok(ObjectView::Int(v)),
            None => Err(ErrorKind::ValueError),
        },
        Infix::Equal => Ok(ObjectView::Boolean(lhs == rhs)),
        Infix::NotEqual => Ok(ObjectView::Boolean(lhs != rhs)),
        Infix::LessThan => Ok(ObjectView::Boolean(lhs < rhs)),
        Infix::LessOrEqual => Ok(ObjectView::Boolean(lhs <= rhs)),
        Infix::GratherThan => Ok(ObjectView::Boolean(lhs > rhs)),
        Infix::GratherOrEqual => Ok(ObjectView::Boolean(lhs >= rhs)),
    }
}

/// What an infix operator gives on two strings: `+` joins them, `==` and
/// `!=` compare them; no other operator is defined.
pub open spec fn string_infix(lhs: Seq<char>, infix: Infix, rhs: Seq<char>) -> Result<
    ObjectView,
    ErrorKind,
> {
    match infix {
        Infix::Plus => Ok(ObjectView::String(lhs + rhs)),
        Infix::Equal => Ok(ObjectView::Boolean(lhs == rhs)),
        Infix::NotEqual => Ok(ObjectView::Boolean(lhs != rhs)),
        _ => Err(ErrorKind::TypeError),
    }
}

/// What an infix operator gives on two booleans: the comparisons, with
/// `false` below `true`; no other operator is defined.
pub open spec fn bool_infix(lhs: bool, infix: Infix, rhs: bool) -> Result<ObjectView, ErrorKind> {
    match infix {
        Infix::Equal => Ok(ObjectView::Boolean(lhs == rhs)),
        Infix::NotEqual => Ok(ObjectView::Boolean(lhs != rhs)),
        Infix::LessThan => Ok(ObjectView::Boolean(!lhs && rhs)),
        Infix::LessOrEqual => Ok(ObjectView::Boolean(!lhs || rhs)),
        Infix::GratherThan => Ok(ObjectView::Boolean(lhs && !rhs)),
        Infix::GratherOrEqual => Ok(ObjectView::Boolean(lhs || !rhs)),
        _ => Err(ErrorKind::TypeError),
    }
}

/// The type of what an infix operator gives on two operands of the type
/// `operand`, where it is defined on them.
pub open spec fn infix_type(operand: Type, infix: Infix) -> Option<Type> {
    match operand {
        Type::Int | Type::Float => if infix.compares() {
            Some(Type::Boolean)
        } else {
            Some(operand)
        },
        Type::String => match infix {
            Infix::Plus => Some(Type::String),
            Infix::Equal | Infix::NotEqual => Some(Type::Boolean),
            _ => None,
        },
        Type::Boolean => if infix.compares() {
            Some(Type::Boolean)
        } else {
            None
        },
        _ => None,
    }
}

/// What an infix operator gives on two values that hold no float. Operands
/// of different types, and operands on which the operator is not defined,
/// are a type error.
pub open spec fn infix_value(lhs: ObjectView, infix: Infix, rhs: ObjectView) -> Result<
    ObjectView,
    ErrorKind,
> {
    if lhs.type_of() != rhs.type_of() {
        Err(ErrorKind::TypeError)
    } else {
        match (lhs, rhs) {
            (ObjectView::Int(a), ObjectView::Int(b)) => int_infix(a, infix, b),
            (ObjectView::String(a), ObjectView::String(b)) => string_infix(a, infix, b),
            (ObjectView::Boolean(a), ObjectView::Boolean(b)) => bool_infix(a, infix, b),
            _ => Err(ErrorKind::TypeError),
        }
    }
}

/// What a prefix operator gives on a value. `!` turns null into `true`,
/// negates a boolean and gives `false` on anything else; `+` and `-` take
/// a number, and `-` on a float changes its sign.
pub open spec fn prefix_value(prefix: Prefix, operand: ObjectView) -> Result<ObjectView, ErrorKind> {
    match prefix {
        Prefix::Not => match operand {
            ObjectView::Null => Ok(ObjectView::Boolean(true)),
            ObjectView::Boolean(val) => Ok(ObjectView::Boolean(!val)),
            _ => Ok(ObjectView::Boolean(false)),
        },
        Prefix::Plus => match operand {
            ObjectView::Int(val) => Ok(ObjectView::Int(val)),
            ObjectView::Float(bits) => Ok(ObjectView::Float(bits)),
            _ => Err(ErrorKind::TypeError),
        },
        Prefix::Minus => match operand {
            ObjectView::Int(val) => Ok(ObjectView::Int(0i64.wrapping_sub(val))),
            ObjectView::Float(bits) => Ok(ObjectView::Float(bits ^ SIGN_BIT)),
            _ => Err(ErrorKind::TypeError),
        },
    }
}

/// What a postfix operator gives on a value: the integer one above or one
/// below, wrapping round. The operand keeps its value.
pub open spec fn postfix_value(operand: ObjectView, postfix: Postfix) -> Result<
    ObjectView,
    ErrorKind,
> {
    match operand {
        ObjectView::Int(val) => match postfix {
            Postfix::Increment => Ok(ObjectView::Int(val.wrapping_add(1))),
            Postfix::Decrement => Ok(ObjectView::Int(val.wrapping_sub(1))),
        },
        _ => Err(ErrorKind::TypeError),
    }
}

/// Whether `r` is what `expected` asks for: a value with that model, or an
/// error of that class.
pub open spec fn yields(r: Result<Object, RuntimeError>, expected: Result<ObjectView, ErrorKind>) -> bool {
    match expected {
        Ok(o) => r is Ok && r->Ok_0@ == o,
        Err(kind) => r is Err && r->Err_0@.kind == kind,
    }
}

fn type_error(msg: String) -> (r: RuntimeError)
    ensures
        r@.kind == ErrorKind::TypeError,
{
    RuntimeError { kind: ErrorKind::TypeError, msg }
}

/// A message made of three parts, one after another.
fn message(a: &str, b: &str, c: &str) -> (r: String)
    ensures
        r@ == a@ + b@ + c@,
{
    let mut out = join(a, b);
    out.append(c);
    out
}

/// An infix operator on two integers.
pub fn eval_infix_int_expr(lhs_val: i64, infix: Infix, rhs_val: i64) -> (r: Result<
    Object,
    RuntimeError,
>)
    ensures
        yields(r, int_infix(lhs_val, infix, rhs_val)),
{
    match infix {
        Infix::Plus => Ok(Object::Int(lhs_val.wrapping_add(rhs_val))),
        Infix::Minus => Ok(Object::Int(lhs_val.wrapping_sub(rhs_val))),
        Infix::Devide => match lhs_val.checked_div(rhs_val) {
            Some(v) => Ok(Object::Int(v)),
            None => Err(
                RuntimeError { kind: ErrorKind::ValueError, msg: owned("division by zero") },
            ),
        },
        Infix::Multiply => Ok(Object::Int(lhs_val.wrapping_mul(rhs_val))),
        Infix::Remainder => match lhs_val.checked_rem(rhs_val) {
            Some(v) => Ok(Object::Int(v)),
            None => Err(
                RuntimeError { kind: ErrorKind::ValueError, msg: owned("remainder by zero") },
            ),
        },
        Infix::Equal => Ok(Object::Boolean(lhs_val == rhs_val)),
        Infix::LessThan => Ok(Object::Boolean(lhs_val < rhs_val)),
        Infix::LessOrEqual => Ok(Object::Boolean(lhs_val <= rhs_val)),
        Infix::GratherThan => Ok(Object::Boolean(lhs_val > rhs_val)),
        Infix::GratherOrEqual => Ok(Object::Boolean(lhs_val >= rhs_val)),
        Infix::NotEqual => Ok(Object::Boolean(lhs_val != rhs_val)),
    }
}

/// An infix operator on two floats; the host computes. A comparison gives
/// a boolean, any other operator a float.
pub fn eval_infix_float_expr<H: Host>(host: &H, lhs_val: u64, infix: Infix, rhs_val: u64) -> (r:
    Object)
    ensures
        infix.compares() ==> r@ is Boolean,
        !infix.compares() ==> r@ is Float,
{
    if infix.is_comparison() {
        Object::Boolean(host.float_compare(lhs_val, infix, rhs_val))
    } else {
        Object::Float(host.float_arith(lhs_val, infix, rhs_val))
    }
}

/// An infix operator on two strings.
pub fn eval_infix_string_expr(lhs: &String, infix: Infix, rhs: &String) -> (r: Result<
    Object,
    RuntimeError,
>)
    ensures
        yields(r, string_infix(lhs@, infix, rhs@)),
{
    match infix {
        Infix::Plus => {
            let mut out = lhs.clone();
            out.append(rhs.as_str());
            Ok(Object::String(out))
        },
        Infix::NotEqual => Ok(Object::Boolean(*lhs != *rhs)),
        Infix::Equal => Ok(Object::Boolean(*lhs == *rhs)),
        _ => {
            let op = infix.to_string();
            Err(type_error(message("'", op.as_str(), "' operation not implemented for type string")))
        },
    }
}

/// An infix operator on two booleans.
pub fn eval_infix_bool_expr(lhs_val: bool, infix: Infix, rhs_val: bool) -> (r: Result<
    Object,
    RuntimeError,
>)
    ensures
        yields(r, bool_infix(lhs_val, infix, rhs_val)),
{
    match infix {
        Infix::Equal => Ok(Object::Boolean(lhs_val == rhs_val)),
        Infix::LessThan => Ok(Object::Boolean(!lhs_val && rhs_val)),
        Infix::LessOrEqual => Ok(Object::Boolean(!lhs_val || rhs_val)),
        Infix::GratherThan => Ok(Object::Boolean(lhs_val && !rhs_val)),
        Infix::GratherOrEqual => Ok(Object::Boolean(lhs_val || !rhs_val)),
        Infix::NotEqual => Ok(Object::Boolean(lhs_val != rhs_val)),
        _ => {
            let op = infix.to_string();
            Err(
                type_error(
                    message("'", op.as_str(), "' operation not implemented for type boolean"),
                ),
            )
        },
    }
}

/// An infix operator on two values. Without floats the result is that of
/// [`infix_value`]; on two floats the host computes. In either case the type
/// of a value that comes out is the one that [`infix_type`] gives for the
/// type of the operands.
pub fn eval_infix<H: Host>(host: &H, lhs: &Object, infix: Infix, rhs: &Object) -> (r: Result<
    Object,
    RuntimeError,
>)
    ensures
        !(lhs@ is Float && rhs@ is Float) ==> yields(r, infix_value(lhs@, infix, rhs@)),
        lhs@ is Float && rhs@ is Float ==> r is Ok && if infix.compares() {
            r->Ok_0@ is Boolean
        } else {
            r->Ok_0@ is Float
        },
        r is Ok ==> lhs@.type_of() == rhs@.type_of() && infix_type(lhs@.type_of(), infix) == Some(
            r->Ok_0@.type_of(),
        ),
        r is Ok ==> r->Ok_0@.wf() && !(r->Ok_0@ is RetVal) && !(r->Ok_0@ is Array),
{
    let lhs_type = lhs.ask_type();
    let rhs_type = rhs.ask_type();
    if !lhs_type.same(&rhs_type) {
        let op = infix.to_string();
        let a = lhs_type.to_string();
        let b = rhs_type.to_string();
        let mut msg = message("'", op.as_str(), "' operation not allowed between types ");
        msg.append(a.as_str());
        msg.append(" and ");
        msg.append(b.as_str());
        return Err(type_error(msg));
    }
    match (lhs, rhs) {
        (Object::Int(lval), Object::Int(rval)) => eval_infix_int_expr(*lval, infix, *rval),
        (Object::Float(lval), Object::Float(rval)) => Ok(
            eval_infix_float_expr(host, *lval, infix, *rval),
        ),
        (Object::String(lval), Object::String(rval)) => eval_infix_string_expr(lval, infix, rval),
        (Object::Boolean(lval), Object::Boolean(rval)) => eval_infix_bool_expr(
            *lval,
            infix,
            *rval,
        ),
        _ => {
            let op = infix.to_string();
            let a = lhs_type.to_string();
            Err(
                type_error(
                    message(
                        join("'", op.as_str()).as_str(),
                        "' operation not implemented for type ",
                        a.as_str(),
                    ),
                ),
            )
        },
    }
}

/// `!` before a value.
pub fn eval_not_prefix(evaluated_expr: &Object) -> (r: Object)
    ensures
        Ok::<ObjectView, ErrorKind>(r@) == prefix_value(Prefix::Not, evaluated_expr@),
{
    match evaluated_expr {
        Object::Null => Object::Boolean(true),
        Object::Boolean(val) => Object::Boolean(!*val),
        _ => Object::Boolean(false),
    }
}

/// `+` before a value.
pub fn eval_plus_prefix(evaluated_expr: &Object) -> (r: Result<Object, RuntimeError>)
    ensures
        yields(r, prefix_value(Prefix::Plus, evaluated_expr@)),
{
    match evaluated_expr {
        Object::Int(val) => Ok(Object::Int(*val)),
        Object::Float(val) => Ok(Object::Float(*val)),
        _ => Err(type_error(owned("'+' prefix is for type number"))),
    }
}

/// `-` before a value.
pub fn eval_minus_prefix(evaluated_expr: &Object) -> (r: Result<Object, RuntimeError>)
    ensures
        yields(r, prefix_value(Prefix::Minus, evaluated_expr@)),
{
    match evaluated_expr {
        Object::Int(val) => Ok(Object::Int(0i64.wrapping_sub(*val))),
        Object::Float(val) => Ok(Object::Float(*val ^ SIGN_BIT)),
        _ => Err(type_error(owned("'-' prefix is for type number"))),
    }
}

/// A prefix operator before a value.
pub fn eval_prefix(prefix: Prefix, evaluated_expr: &Object) -> (r: Result<Object, RuntimeError>)
    ensures
        yields(r, prefix_value(prefix, evaluated_expr@)),
        r is Ok ==> r->Ok_0@.wf() && !(r->Ok_0@ is RetVal) && !(r->Ok_0@ is Array),
{
    match prefix {
        Prefix::Not => Ok(eval_not_prefix(evaluated_expr)),
        Prefix::Plus => eval_plus_prefix(evaluated_expr),
        Prefix::Minus => eval_minus_prefix(evaluated_expr),
    }
}

/// A postfix operator after a value.
pub fn eval_postfix(evaluated_expr: &Object, postfix: Postfix) -> (r: Result<Object, RuntimeError>)
    ensures
        yields(r, postfix_value(evaluated_expr@, postfix)),
        r is Ok ==> r->Ok_0@.wf() && !(r->Ok_0@ is RetVal) && !(r->Ok_0@ is Array),
{
    let old_value = match evaluated_expr {
        Object::Int(val) => *val,
        _ => {
            let op = postfix.to_string();
            return Err(
                type_error(message("'", op.as_str(), "' operation is only allowed for type 'int'")),
            );
        },
    };
    match postfix {
        Postfix::Increment => Ok(Object::Int(old_value.wrapping_add(1))),
        Postfix::Decrement => Ok(Object::Int(old_value.wrapping_sub(1))),
    }
}

/// The type of what an operator gives is fixed by the operator and the
/// type of its operands: where an infix operator gives a value on two
/// values without floats, both are of one type, and the value is a boolean
/// for a comparison, of the type of the operands for integers, and a string
/// for the sum of two strings.
pub proof fn law_infix_type(lhs: ObjectView, infix: Infix, rhs: ObjectView)
    requires
        infix_value(lhs, infix, rhs) is Ok,
    ensures
        lhs.type_of() == rhs.type_of(),
        infix_type(lhs.type_of(), infix) == Some(infix_value(lhs, infix, rhs)->Ok_0.type_of()),
        infix.compares() ==> infix_value(lhs, infix, rhs)->Ok_0.type_of() == Type::Boolean,
        !infix.compares() ==> infix_value(lhs, infix, rhs)->Ok_0.type_of() == lhs.type_of(),
{
}

/// A division and a remainder of integers by zero are a bad value, and so
/// is the one division that leaves the integers; any other division gives
/// the quotient rounded towards zero.
pub proof fn law_integer_division(lhs: i64, rhs: i64)
    ensures
        int_infix(lhs, Infix::Devide, 0) == Err::<ObjectView, ErrorKind>(ErrorKind::ValueError),
        int_infix(lhs, Infix::Remainder, 0) == Err::<ObjectView, ErrorKind>(ErrorKind::ValueError),
        int_infix(i64::MIN, Infix::Devide, -1i64) == Err::<ObjectView, ErrorKind>(ErrorKind::ValueError),
        rhs != 0 && !(lhs == i64::MIN && rhs == -1) ==> int_infix(lhs, Infix::Devide, rhs) is Ok,
        lhs >= 0 && rhs > 0 ==> int_infix(lhs, Infix::Devide, rhs) == Ok::<ObjectView, ErrorKind>(
            ObjectView::Int((lhs / rhs) as i64),
        ),
{
    if rhs != 0 && !(lhs == i64::MIN && rhs == -1) {
        lemma_quotient_fits(lhs as int, rhs as int);
    }
}

/// The quotient of two integers, rounded towards zero, is an integer of
/// the same width, but for the least integer divided by minus one.
proof fn lemma_quotient_fits(x: int, d: int)
    requires
        i64::MIN <= x <= i64::MAX,
        i64::MIN <= d <= i64::MAX,
        d != 0,
        !(x == i64::MIN && d == -1),
    ensures
        ({
            let output = if x == 0 {
                0
            } else if x > 0 && d > 0 {
                x / d
            } else if x < 0 && d < 0 {
                ((x * -1) / (d * -1))
            } else if x < 0 {
                ((x * -1) / d) * -1
            } else {
                (x / (d * -1)) * -1
            };
            i64::MIN <= output <= i64::MAX
        }),
{
    let a = if x < 0 {
        -x
    } else {
        x
    };
    let b = if d < 0 {
        -d
    } else {
        d
    };
    assert(0 <= a / b <= a) by (nonlinear_arith)
        requires
            a >= 0,
            b > 0,
    ;
    if x < 0 && d < 0 {
        assert(a / b < a || b == 1) by (nonlinear_arith)
            requires
                a > 0,
                b > 0,
        ;
    }
}

/// Where a prefix or a postfix operator gives a value, its type is fixed:
/// a boolean for `!`, the type of the operand for the others.
pub proof fn law_unary_type(prefix: Prefix, postfix: Postfix, operand: ObjectView)
    ensures
        prefix_value(prefix, operand) matches Ok(v) ==> v.type_of() == if prefix == Prefix::Not {
            Type::Boolean
        } else {
            operand.type_of()
        },
        postfix_value(operand, postfix) matches Ok(v) ==> v.type_of() == Type::Int
            && operand.type_of() == Type::Int,
{
}

} // verus!
