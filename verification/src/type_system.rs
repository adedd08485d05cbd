//! The types of runtime values.

use crate::ast::ExprType;
use crate::text::{join, owned};
use vstd::prelude::*;

verus! {

/// The type of a runtime value. An array's element type is unknown only
/// while the array is an empty literal.
#[derive(PartialEq, Debug)]
pub enum Type {
    Null,
    Void,
    Int,
    Float,
    String,
    Boolean,
    Function,
    Range,
    TypeAnnot,
    Module,
    Array(Option<Box<Type>>),
}

impl Clone for Type {
    fn clone(&self) -> (r: Self)
        ensures
            r == *self,
        decreases self,
    {
        match self {
            Type::Null => Type::Null,
            Type::Void => Type::Void,
            Type::Int => Type::Int,
            Type::Float => Type::Float,
            Type::String => Type::String,
            Type::Boolean => Type::Boolean,
            Type::Function => Type::Function,
            Type::Range => Type::Range,
            Type::TypeAnnot => Type::TypeAnnot,
            Type::Module => Type::Module,
            Type::Array(None) => Type::Array(None),
            Type::Array(Some(inner)) => Type::Array(Some(Box::new((&**inner).clone()))),
        }
    }
}

impl Type {
    /// Whether two types are the same.
    pub fn same(&self, other: &Type) -> (r: bool)
        ensures
            r == (*self == *other),
        decreases self,
    {
        match (self, other) {
            (Type::Null, Type::Null) => true,
            (Type::Void, Type::Void) => true,
            (Type::Int, Type::Int) => true,
            (Type::Float, Type::Float) => true,
            (Type::String, Type::String) => true,
            (Type::Boolean, Type::Boolean) => true,
            (Type::Function, Type::Function) => true,
            (Type::Range, Type::Range) => true,
            (Type::TypeAnnot, Type::TypeAnnot) => true,
            (Type::Module, Type::Module) => true,
            (Type::Array(None), Type::Array(None)) => true,
            (Type::Array(Some(a)), Type::Array(Some(b))) => (&**a).same(&**b),
            _ => false,
        }
    }

    /// The name of the type, as it is shown.
    pub open spec fn text(self) -> Seq<char>
        decreases self,
    {
        match self {
            Type::Null => "null"@,
            Type::Void => "void"@,
            Type::Int => "int"@,
            Type::Float => "float"@,
            Type::String => "string"@,
            Type::Boolean => "boolean"@,
            Type::Function => "function"@,
            Type::Range => "range"@,
            Type::TypeAnnot => "[Type Annotation]"@,
            Type::Module => "[Module]"@,
            Type::Array(None) => "Array<any>"@,
            Type::Array(Some(inner)) => "Array<"@ + inner.text() + ">"@,
        }
    }

    /// The name of the type, as it is shown.
    pub fn to_string(&self) -> (r: String)
        ensures
            r@ == self.text(),
        decreases self,
    {
        match self {
            Type::Null => owned("null"),
            Type::Void => owned("void"),
            Type::Int => owned("int"),
            Type::Float => owned("float"),
            Type::String => owned("string"),
            Type::Boolean => owned("boolean"),
            Type::Function => owned("function"),
            Type::Range => owned("range"),
            Type::TypeAnnot => owned("[Type Annotation]"),
            Type::Module => owned("[Module]"),
            Type::Array(None) => owned("Array<any>"),
            Type::Array(Some(inner)) => {
                let name = (&**inner).to_string();
                let mut out = join("Array<", name.as_str());
                out.append(">");
                out
            },
        }
    }
}

/// The runtime type that a type annotation denotes.
pub open spec fn annotated_type(var_type: ExprType) -> Type
    decreases var_type,
{
    match var_type {
        ExprType::String => Type::String,
        ExprType::Boolean => Type::Boolean,
        ExprType::Void => Type::Void,
        ExprType::Int => Type::Int,
        ExprType::Float => Type::Float,
        ExprType::Array(items_type) => Type::Array(Some(Box::new(annotated_type(*items_type)))),
    }
}

/// The runtime type that a type annotation denotes.
pub fn expr_type_to_object_type(var_type: &ExprType) -> (r: Type)
    ensures
        r == annotated_type(*var_type),
    decreases var_type,
{
    match var_type {
        ExprType::String => Type::String,
        ExprType::Boolean => Type::Boolean,
        ExprType::Void => Type::Void,
        ExprType::Int => Type::Int,
        ExprType::Float => Type::Float,
        ExprType::Array(items_type) => Type::Array(
            Some(Box::new(expr_type_to_object_type(&**items_type))),
        ),
    }
}

/// Whether a function that declares `lhs` may return a value of type `rhs`
/// although the two differ: `void` and `null` stand for each other.
pub open spec fn equivalent_types(lhs: Type, rhs: Type) -> bool {
    (lhs == Type::Void && rhs == Type::Null) || (lhs == Type::Null && rhs == Type::Void)
}

/// Whether `void` and `null` meet in `lhs` and `rhs`.
pub fn is_types_equivalents(lhs: &Type, rhs: &Type) -> (r: bool)
    ensures
        r == equivalent_types(*lhs, *rhs),
{
    match lhs {
        Type::Void => match rhs {
            Type::Null => true,
            _ => false,
        },
        Type::Null => match rhs {
            Type::Void => true,
            _ => false,
        },
        _ => false,
    }
}

/// Whether a value of type `value` may be bound where `declared` is the
/// declared type: the two are the same, or the value is an empty array
/// literal, whose element type is unknown, and an array is declared.
pub open spec fn binds_to(declared: Type, value: Type) -> bool {
    declared == value || (declared matches Type::Array(Some(_)) && value == Type::Array(None))
}

/// Whether a value of type `value` may be bound where `declared` is declared.
pub fn type_binds_to(declared: &Type, value: &Type) -> (r: bool)
    ensures
        r == binds_to(*declared, *value),
{
    if declared.same(value) {
        return true;
    }
    match (declared, value) {
        (Type::Array(Some(_)), Type::Array(None)) => true,
        _ => false,
    }
}

} // verus!
