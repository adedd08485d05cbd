//! What a declaration, an assignment, an argument and a return accept, and
//! what they bind.

use crate::object::{
    objects_view, value_ok, FunctionParam, Object, ObjectInfo, ObjectInfoView, ObjectView,
};
use crate::runtime_error::{ErrorKind, RuntimeError};
use crate::text::{join, owned};
use crate::type_system::{binds_to, equivalent_types, is_types_equivalents, Type};
use vstd::prelude::*;

verus! {

/// An empty array whose elements are to be of the type `items`.
pub open spec fn empty_array(items: Type) -> ObjectView {
    ObjectView::Array { inner: Seq::empty(), items_type: Some(items) }
}

/// Whether a variable can be declared with the type: not `void`, not an
/// array of `void`, not an array of unknown elements.
pub open spec fn declarable(declared: Type) -> bool {
    match declared {
        Type::Void => false,
        Type::Array(None) => false,
        Type::Array(Some(items)) => *items != Type::Void,
        _ => true,
    }
}

/// What a declaration without an initializer binds: an empty array for an
/// array type, null for any other.
pub open spec fn default_of(declared: Type) -> ObjectView {
    match declared {
        Type::Array(Some(items)) => empty_array(*items),
        _ => ObjectView::Null,
    }
}

/// What a declaration binds, as the value and the declared type, given the
/// type it is annotated with and the value of its initializer, as far as
/// each is there.
///
/// Without a type the type is that of the value, and an empty array, whose
/// element type nobody knows, is a type error. With a type the value must
/// be of it; an empty array literal takes the element type that is declared.
pub open spec fn declared_binding(declared: Option<Type>, init: Option<ObjectView>) -> Result<
    (ObjectView, Type),
    ErrorKind,
> {
    match (declared, init) {
        (None, None) => Err(ErrorKind::TypeError),
        (None, Some(value)) => if value.type_of() == Type::Array(None) {
            Err(ErrorKind::TypeError)
        } else {
            Ok((value, value.type_of()))
        },
        (Some(t), None) => if declarable(t) {
            Ok((default_of(t), t))
        } else {
            Err(ErrorKind::TypeError)
        },
        (Some(t), Some(value)) => if !declarable(t) {
            Err(ErrorKind::TypeError)
        } else {
            match assigned_value(t, value) {
                Ok(v) => Ok((v, t)),
                Err(kind) => Err(kind),
            }
        },
    }
}

/// What an assignment stores in a binding of the declared type `declared`
/// when it is given `value`: the value, where it is of that type; for an
/// array type, a new empty array of the declared element type where the
/// value is an empty array literal. Anything else is a type error.
pub open spec fn assigned_value(declared: Type, value: ObjectView) -> Result<ObjectView, ErrorKind> {
    match declared {
        Type::Array(Some(items)) if value.type_of() == Type::Array(None) => Ok(
            empty_array(*items),
        ),
        _ => if declared == value.type_of() {
            Ok(value)
        } else {
            Err(ErrorKind::TypeError)
        },
    }
}

/// Whether an argument can be bound to a parameter of the type `param`: its
/// type is that type, and it is no empty array literal.
pub open spec fn argument_fits(param: Type, arg: ObjectInfoView) -> bool {
    param == arg.type_ && arg.type_ != Type::Array(None)
}

/// The value that a function's body hands to its caller: what a `return`
/// carried, or null where the body ended without one.
pub open spec fn returned_value(outcome: Option<ObjectView>) -> ObjectView {
    match outcome {
        Some(ObjectView::RetVal(inner)) => *inner,
        _ => ObjectView::Null,
    }
}

/// What a call gives for the outcome of the function's body: the returned
/// value, where it is of the declared return type, or `void` is declared
/// and null is returned, or the other way round; else a type error.
pub open spec fn call_result(expected: Type, outcome: Option<ObjectView>) -> Result<
    ObjectView,
    ErrorKind,
> {
    let value = returned_value(outcome);
    if expected == value.type_of() || equivalent_types(expected, value.type_of()) {
        Ok(value)
    } else {
        Err(ErrorKind::TypeError)
    }
}

fn type_error(msg: String) -> (r: RuntimeError)
    ensures
        r@.kind == ErrorKind::TypeError,
{
    RuntimeError { kind: ErrorKind::TypeError, msg }
}

/// Whether a variable can be declared with the type `declared`; an error
/// where it cannot.
pub fn check_declared_type(declared: &Type) -> (r: Result<(), RuntimeError>)
    ensures
        r is Ok <==> declarable(*declared),
        r is Err ==> r->Err_0@.kind == ErrorKind::TypeError,
{
    match declared {
        Type::Void => Err(type_error(owned("Can't declared var of type 'void'"))),
        Type::Array(None) => Err(type_error(owned("Can't declared array of unknown type"))),
        Type::Array(Some(items)) => {
            if (&**items).same(&Type::Void) {
                Err(type_error(owned("Can't declared array of type 'void'")))
            } else {
                Ok(())
            }
        },
        _ => Ok(()),
    }
}

/// What a declaration without an initializer binds.
pub fn default_value(declared: &Type) -> (r: Object)
    ensures
        r@ == default_of(*declared),
        declarable(*declared) ==> (ObjectInfoView { is_mut: true, type_: *declared, value: r@ }).wf(),
{
    match declared {
        Type::Array(Some(items)) => {
            let inner: Vec<Object> = Vec::new();
            assert(objects_view(inner@) =~= Seq::<ObjectView>::empty());
            Object::Array { inner, items_type: Some((&**items).clone()) }
        },
        _ => Object::Null,
    }
}

/// What a declaration without a type binds to the value of its initializer:
/// the value and its type.
pub fn bind_inferred(name: &String, value: Object) -> (r: Result<(Object, Type), RuntimeError>)
    ensures
        match declared_binding(None, Some(value@)) {
            Ok((v, t)) => r is Ok && r->Ok_0.0@ == v && r->Ok_0.1 == t,
            Err(kind) => r is Err && r->Err_0@.kind == kind,
        },
        r is Ok && value_ok(value@) ==> (ObjectInfoView {
            is_mut: true,
            type_: r->Ok_0.1,
            value: r->Ok_0.0@,
        }).wf(),
{
    let inferred = value.ask_type();
    if inferred.same(&Type::Array(None)) {
        let mut msg = join("Can't infer type of array '", name.as_str());
        msg.append("'");
        return Err(type_error(msg));
    }
    Ok((value, inferred))
}

/// What an assignment stores in a binding of the declared type `declared`
/// when it is given `value`.
pub fn assign_value(name: &String, declared: &Type, value: Object) -> (r: Result<
    Object,
    RuntimeError,
>)
    ensures
        match assigned_value(*declared, value@) {
            Ok(v) => r is Ok && r->Ok_0@ == v,
            Err(kind) => r is Err && r->Err_0@.kind == kind,
        },
        r is Ok && value_ok(value@) && *declared != Type::Array(None) ==> (ObjectInfoView {
            is_mut: true,
            type_: *declared,
            value: r->Ok_0@,
        }).wf(),
{
    let provided = value.ask_type();
    match (declared, &provided) {
        (Type::Array(Some(items)), Type::Array(None)) => {
            let inner: Vec<Object> = Vec::new();
            assert(objects_view(inner@) =~= Seq::<ObjectView>::empty());
            return Ok(Object::Array { inner, items_type: Some((&**items).clone()) });
        },
        _ => {},
    }
    if declared.same(&provided) {
        return Ok(value);
    }
    let want = declared.to_string();
    let got = provided.to_string();
    let mut msg = join("'", name.as_str());
    msg.append("' expects value of type '");
    msg.append(want.as_str());
    msg.append("' but provided value of type '");
    msg.append(got.as_str());
    msg.append("'");
    Err(type_error(msg))
}

/// Whether the argument `arg` can be bound to the parameter `param`; an
/// error where it cannot.
pub fn check_argument(param: &FunctionParam, arg: &ObjectInfo) -> (r: Result<(), RuntimeError>)
    ensures
        r is Ok <==> argument_fits(param.type_, arg@),
        r is Err ==> r->Err_0@.kind == ErrorKind::TypeError,
{
    if !param.type_.same(&arg.type_) || arg.type_.same(&Type::Array(None)) {
        let got = arg.type_.to_string();
        let want = param.type_.to_string();
        let mut msg = join("Passing argument of type '", got.as_str());
        msg.append("' to parameter of type '");
        msg.append(want.as_str());
        msg.append("'");
        return Err(type_error(msg));
    }
    Ok(())
}

/// What a call of the function `fn_name`, which declares the return type
/// `expected`, gives for the outcome of its body.
pub fn check_return(fn_name: &String, expected: &Type, outcome: Option<Object>) -> (r: Result<
    Object,
    RuntimeError,
>)
    ensures
        match call_result(
            *expected,
            match outcome {
                Some(o) => Some(o@),
                None => None,
            },
        ) {
            Ok(v) => r is Ok && r->Ok_0@ == v,
            Err(kind) => r is Err && r->Err_0@.kind == kind,
        },
        r is Ok && (outcome matches Some(o) ==> crate::object::outcome_ok(o@)) ==> value_ok(
            r->Ok_0@,
        ),
{
    let value = match outcome {
        Some(Object::RetVal(inner)) => *inner,
        _ => Object::Null,
    };
    let provided = value.ask_type();
    if !expected.same(&provided) && !is_types_equivalents(expected, &provided) {
        let want = expected.to_string();
        let got = provided.to_string();
        let mut msg = join("Function '", fn_name.as_str());
        msg.append("' must return '");
        msg.append(want.as_str());
        msg.append("' but found '");
        msg.append(got.as_str());
        msg.append("'");
        return Err(type_error(msg));
    }
    Ok(value)
}

/// An assignment is accepted exactly where the type of the value binds to
/// the declared type: the two are the same, or an array is declared and the
/// value is an empty array literal.
pub proof fn law_assignment_accepts(declared: Type, value: ObjectView)
    ensures
        assigned_value(declared, value) is Ok <==> binds_to(declared, value.type_of()),
{
}

/// An empty array without an annotation is a type error, and with one it is
/// bound as an empty array of the annotated element type.
pub proof fn law_empty_array_binding(items: Type)
    requires
        items != Type::Void,
    ensures
        declared_binding(None, Some(ObjectView::Array { inner: Seq::empty(), items_type: None }))
            == Err::<(ObjectView, Type), ErrorKind>(ErrorKind::TypeError),
        declared_binding(
            Some(Type::Array(Some(Box::new(items)))),
            Some(ObjectView::Array { inner: Seq::empty(), items_type: None }),
        ) == Ok::<(ObjectView, Type), ErrorKind>(
            (empty_array(items), Type::Array(Some(Box::new(items)))),
        ),
{
}

} // verus!
